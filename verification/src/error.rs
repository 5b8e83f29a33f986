use vstd::prelude::*;
use vstd::string::StringExecFns;

use crate::jsonrpc::{JsonRpcError, INTERNAL_ERROR_CODE};

verus! {

/// `reqwest::Error` reports a failed HTTP exchange; the dispatch logic only
/// carries it and renders its message.
#[verifier::external_type_specification]
#[verifier::external_body]
pub struct ExReqwestError(reqwest::Error);

/// `serde_json::Error` reports a failed encode or decode of a wire payload.
#[verifier::external_type_specification]
#[verifier::external_body]
pub struct ExSerdeJsonError(serde_json::Error);

/// A local failure while building or decoding an exchange: either the
/// transport refused the request or a payload did not (de)serialize.
pub enum ClientError {
    Reqwest(reqwest::Error),
    SerdeJson(serde_json::Error),
}

impl JsonRpcError {
    /// A transport failure surfaced as a JSON-RPC internal error: the
    /// message is the failure's rendered text inside `"Internal error (...)"`.
    pub fn from_reqwest(err: reqwest::Error) -> (r: JsonRpcError)
        ensures
            r.code == INTERNAL_ERROR_CODE,
            r.message@.len() > 0,
            exists|t: Seq<char>| r.message@ == "Internal error ("@ + t + ")"@,
    {
        let text = err.to_string();
        let message = "Internal error (".to_owned().concat(text.as_str()).concat(")");
        proof {
            reveal_strlit("Internal error (");
            let t0 = text@;
            assert(message@ == "Internal error ("@ + t0 + ")"@);
        }
        JsonRpcError { code: INTERNAL_ERROR_CODE, message }
    }

    /// A local client error surfaced as a JSON-RPC internal error. Both
    /// variants map to the internal-error code; the message keeps the
    /// transport-vs-serialization distinction through its prefix and
    /// embeds the source error's rendered text.
    pub fn from_error(err: ClientError) -> (r: JsonRpcError)
        ensures
            r.code == INTERNAL_ERROR_CODE,
            r.message@.len() > 0,
            err is Reqwest ==> exists|t: Seq<char>| r.message@ == "Internal error ("@ + t
                + ")"@,
            err is SerdeJson ==> exists|t: Seq<char>| r.message@
                == "Serialization/deserialization error: "@ + t,
    {
        match err {
            ClientError::Reqwest(e) => JsonRpcError::from_reqwest(e),
            ClientError::SerdeJson(e) => {
                let text = e.to_string();
                let message = "Serialization/deserialization error: ".to_owned().concat(
                    text.as_str(),
                );
                proof {
                    reveal_strlit("Serialization/deserialization error: ");
                    let t0 = text@;
                    assert(message@ == "Serialization/deserialization error: "@ + t0);
                }
                JsonRpcError { code: INTERNAL_ERROR_CODE, message }
            },
        }
    }
}

} // verus!
