use reqwest_enum::http::HTTPMethod;
use reqwest_enum::jsonrpc::{
    JsonRpcError, JsonRpcId, JsonRpcRequest, INTERNAL_ERROR_CODE, INVALID_REQUEST_CODE,
};
use reqwest_enum::ClientError;
use serde_json::Value;

#[test]
fn test_request_envelope_fields() {
    let params = vec![Value::String("0xabc".to_string()), Value::Bool(false)];
    let request = JsonRpcRequest::new("eth_getTransactionByHash", params.clone(), 7);
    assert_eq!(request.jsonrpc, "2.0");
    assert_eq!(request.id, JsonRpcId::Integer(7));
    assert_eq!(request.method, "eth_getTransactionByHash");
    assert_eq!(request.params, params);
}

#[test]
fn test_invalid_request_error_shape() {
    let err = JsonRpcError::invalid_request();
    assert_eq!(err.code, INVALID_REQUEST_CODE);
    assert_eq!(err.message, "Invalid Request");
}

#[test]
fn test_from_reqwest_transport_error() {
    let transport_err = reqwest::Client::new()
        .get("http://[invalid")
        .build()
        .unwrap_err();
    let rpc_err = JsonRpcError::from_reqwest(transport_err);
    assert_eq!(rpc_err.code, INTERNAL_ERROR_CODE);
    assert!(rpc_err.message.starts_with("Internal error ("));
    assert!(rpc_err.message.ends_with(')'));
}

#[test]
fn test_from_error_wraps_serde_json() {
    let decode_err = serde_json::from_str::<Value>("{").unwrap_err();
    let rpc_err = JsonRpcError::from_error(ClientError::SerdeJson(decode_err));
    assert_eq!(rpc_err.code, INTERNAL_ERROR_CODE);
    assert!(rpc_err
        .message
        .starts_with("Serialization/deserialization error: "));
}

#[test]
fn test_from_error_wraps_reqwest() {
    let transport_err = reqwest::Client::new()
        .get("http://[invalid")
        .build()
        .unwrap_err();
    let rpc_err = JsonRpcError::from_error(ClientError::Reqwest(transport_err));
    assert_eq!(rpc_err.code, INTERNAL_ERROR_CODE);
    assert!(rpc_err.message.starts_with("Internal error ("));
}

#[test]
fn test_http_method_names() {
    assert_eq!(HTTPMethod::GET.as_str(), "GET");
    assert_eq!(HTTPMethod::POST.as_str(), "POST");
    assert_eq!(HTTPMethod::PUT.as_str(), "PUT");
    assert_eq!(HTTPMethod::DELETE.as_str(), "DELETE");
    assert_eq!(HTTPMethod::PATCH.as_str(), "PATCH");
    assert_eq!(HTTPMethod::OPTIONS.as_str(), "OPTIONS");
    assert_eq!(HTTPMethod::HEAD.as_str(), "HEAD");
    assert_eq!(HTTPMethod::CONNECT.as_str(), "CONNECT");
}
