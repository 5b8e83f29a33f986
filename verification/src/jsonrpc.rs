use vstd::prelude::*;

verus! {

/// JSON-RPC protocol version carried in every request envelope.
pub const JSONRPC_VERSION: &'static str = "2.0";

/// JSON-RPC error code for a request that is rejected before any exchange
/// (empty batch, zero chunk size).
pub const INVALID_REQUEST_CODE: i64 = -32600;

/// JSON-RPC error code for a payload that could not be encoded or decoded.
pub const PARSE_ERROR_CODE: i64 = -32700;

/// JSON-RPC error code for a transport or other internal failure.
pub const INTERNAL_ERROR_CODE: i64 = -32603;

/// `serde_json::Value` is the caller-supplied parameter payload. The
/// dispatch logic never inspects it; values are carried through opaquely.
#[verifier::external_type_specification]
#[verifier::external_body]
pub struct ExValue(serde_json::Value);

/// Relies on `serde_json::Value::clone` (a derived structural clone of an
/// owned JSON tree): the copy is equal to the original.
pub assume_specification[ <serde_json::Value as Clone>::clone ](
    v: &serde_json::Value,
) -> (r: serde_json::Value)
    ensures
        r == *v,
;

/// A correlation identifier: an integer or a string, unique within one batch.
#[derive(Debug, PartialEq, Eq)]
pub enum JsonRpcId {
    Integer(u64),
    String(String),
}

/// A per-item application error, and also the aggregate error type of the
/// batch dispatch paths.
#[derive(Debug, PartialEq, Eq)]
pub struct JsonRpcError {
    pub code: i64,
    pub message: String,
}

impl JsonRpcError {
    /// The error returned before any exchange when a batch call is rejected.
    pub fn invalid_request() -> (r: JsonRpcError)
        ensures
            r.code == INVALID_REQUEST_CODE,
            r.message@ == "Invalid Request"@,
    {
        JsonRpcError { code: INVALID_REQUEST_CODE, message: "Invalid Request".to_owned() }
    }
}

/// One wire envelope: a serializable record built 1:1 from a request
/// descriptor at dispatch time.
#[derive(Debug, PartialEq)]
pub struct JsonRpcRequest {
    pub jsonrpc: &'static str,
    pub id: JsonRpcId,
    pub method: &'static str,
    pub params: Vec<serde_json::Value>,
}

impl JsonRpcRequest {
    pub fn new(method: &'static str, params: Vec<serde_json::Value>, id: u64) -> (r:
        JsonRpcRequest)
        ensures
            r.jsonrpc@ == JSONRPC_VERSION@,
            r.id == JsonRpcId::Integer(id),
            r.method@ == method@,
            r.params@ == params@,
    {
        JsonRpcRequest { jsonrpc: JSONRPC_VERSION, id: JsonRpcId::Integer(id), method, params }
    }
}

/// A per-item success envelope decoded from a batch response.
#[derive(Debug, PartialEq)]
pub struct JsonRpcResponse<T> {
    pub id: JsonRpcId,
    pub jsonrpc: String,
    pub result: T,
}

/// A per-item error envelope decoded from a batch response.
#[derive(Debug, PartialEq, Eq)]
pub struct JsonRpcErrorResponse {
    pub jsonrpc: String,
    pub id: JsonRpcId,
    pub error: JsonRpcError,
}

/// One element of a decoded batch response: the remote side answers each
/// request either with a value or with a per-item error.
#[derive(Debug, PartialEq)]
pub enum JsonRpcResult<T> {
    Value(JsonRpcResponse<T>),
    Error(JsonRpcErrorResponse),
}

} // verus!
