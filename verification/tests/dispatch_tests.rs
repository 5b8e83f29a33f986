use reqwest_enum::dispatch::{
    aggregate, assign_ids, plan, prepare_batch, prepare_chunked, RequestDescriptor,
};
use reqwest_enum::jsonrpc::{
    JsonRpcError, JsonRpcErrorResponse, JsonRpcId, JsonRpcResponse, JsonRpcResult,
    INTERNAL_ERROR_CODE, INVALID_REQUEST_CODE, PARSE_ERROR_CODE,
};
use serde_json::Value;

fn descriptor(method: &'static str) -> RequestDescriptor {
    RequestDescriptor {
        method,
        params: Vec::new(),
    }
}

fn value_item(id: u64, payload: &str) -> JsonRpcResult<Value> {
    JsonRpcResult::Value(JsonRpcResponse {
        id: JsonRpcId::Integer(id),
        jsonrpc: "2.0".to_string(),
        result: Value::String(payload.to_string()),
    })
}

fn error_item(id: u64, code: i64, message: &str) -> JsonRpcResult<Value> {
    JsonRpcResult::Error(JsonRpcErrorResponse {
        jsonrpc: "2.0".to_string(),
        id: JsonRpcId::Integer(id),
        error: JsonRpcError {
            code,
            message: message.to_string(),
        },
    })
}

#[test]
fn test_chunked_scenario_three_descriptors() {
    // Three descriptors at chunk size two: chunks [[1, 2], [3]] under the
    // global-offset correlation scheme.
    let descriptors = vec![
        descriptor("eth_chainId"),
        descriptor("eth_gasPrice"),
        descriptor("eth_blockNumber"),
    ];
    let chunks = prepare_chunked(&descriptors, 2).expect("planning succeeds");
    assert_eq!(chunks.len(), 2);
    assert_eq!(chunks[0].len(), 2);
    assert_eq!(chunks[1].len(), 1);
    assert_eq!(chunks[0][0].id, JsonRpcId::Integer(1));
    assert_eq!(chunks[0][1].id, JsonRpcId::Integer(2));
    assert_eq!(chunks[1][0].id, JsonRpcId::Integer(3));
    assert_eq!(chunks[0][0].method, "eth_chainId");
    assert_eq!(chunks[0][1].method, "eth_gasPrice");
    assert_eq!(chunks[1][0].method, "eth_blockNumber");
    for chunk in &chunks {
        for envelope in chunk {
            assert_eq!(envelope.jsonrpc, "2.0");
        }
    }
}

#[test]
fn test_chunked_empty_input_rejected() {
    let descriptors: Vec<RequestDescriptor> = Vec::new();
    let err = prepare_chunked(&descriptors, 2).unwrap_err();
    assert_eq!(err.code, INVALID_REQUEST_CODE);
    assert_eq!(err.message, "Invalid Request");
}

#[test]
fn test_chunked_zero_chunk_size_rejected() {
    let mut descriptors = Vec::new();
    for _ in 0..5 {
        descriptors.push(descriptor("eth_chainId"));
    }
    let err = prepare_chunked(&descriptors, 0).unwrap_err();
    assert_eq!(err.code, INVALID_REQUEST_CODE);
    assert_eq!(err.message, "Invalid Request");
}

#[test]
fn test_batch_empty_input_rejected() {
    let descriptors: Vec<RequestDescriptor> = Vec::new();
    let err = prepare_batch(&descriptors).unwrap_err();
    assert_eq!(err.code, INVALID_REQUEST_CODE);
    assert_eq!(err.message, "Invalid Request");
}

#[test]
fn test_batch_assigns_contiguous_ids_and_keeps_params() {
    let descriptors = vec![
        RequestDescriptor {
            method: "eth_getBalance",
            params: vec![
                Value::String("0xabc".to_string()),
                Value::String("latest".to_string()),
            ],
        },
        RequestDescriptor {
            method: "eth_blockNumber",
            params: Vec::new(),
        },
    ];
    let envelopes = prepare_batch(&descriptors).expect("non-empty batch succeeds");
    assert_eq!(envelopes.len(), 2);
    assert_eq!(envelopes[0].id, JsonRpcId::Integer(1));
    assert_eq!(envelopes[1].id, JsonRpcId::Integer(2));
    assert_eq!(envelopes[0].method, "eth_getBalance");
    assert_eq!(envelopes[0].params, descriptors[0].params);
    assert_eq!(envelopes[1].params, descriptors[1].params);
    assert_eq!(envelopes[0].jsonrpc, "2.0");
}

#[test]
fn test_assign_ids_carries_global_offset() {
    let items = vec![descriptor("a"), descriptor("b"), descriptor("c")];
    let envelopes = assign_ids(&items, 4);
    assert_eq!(envelopes.len(), 3);
    assert_eq!(envelopes[0].id, JsonRpcId::Integer(5));
    assert_eq!(envelopes[1].id, JsonRpcId::Integer(6));
    assert_eq!(envelopes[2].id, JsonRpcId::Integer(7));
}

#[test]
fn test_plan_partitions_preserving_order() {
    let descriptors = vec![
        descriptor("m1"),
        descriptor("m2"),
        descriptor("m3"),
        descriptor("m4"),
        descriptor("m5"),
    ];
    let chunks = plan(&descriptors, 2).expect("planning succeeds");
    assert_eq!(chunks.len(), 3);
    assert_eq!(chunks[0].start_offset, 0);
    assert_eq!(chunks[1].start_offset, 2);
    assert_eq!(chunks[2].start_offset, 4);
    let mut concatenated: Vec<&'static str> = Vec::new();
    for chunk in &chunks {
        for item in &chunk.items {
            concatenated.push(item.method);
        }
    }
    assert_eq!(concatenated, vec!["m1", "m2", "m3", "m4", "m5"]);
}

#[test]
fn test_plan_single_chunk_when_input_fits() {
    let descriptors = vec![descriptor("m1"), descriptor("m2")];
    let chunks = plan(&descriptors, 10).expect("planning succeeds");
    assert_eq!(chunks.len(), 1);
    assert_eq!(chunks[0].start_offset, 0);
    assert_eq!(chunks[0].items.len(), 2);
}

#[test]
fn test_plan_chunk_size_one() {
    let descriptors = vec![descriptor("m1"), descriptor("m2"), descriptor("m3")];
    let chunks = prepare_chunked(&descriptors, 1).expect("planning succeeds");
    assert_eq!(chunks.len(), 3);
    for (k, chunk) in chunks.iter().enumerate() {
        assert_eq!(chunk.len(), 1);
        assert_eq!(chunk[0].id, JsonRpcId::Integer(k as u64 + 1));
    }
}

#[test]
fn test_plan_idempotent() {
    let descriptors = vec![
        descriptor("m1"),
        descriptor("m2"),
        descriptor("m3"),
        descriptor("m4"),
        descriptor("m5"),
    ];
    let first = plan(&descriptors, 2).expect("planning succeeds");
    let second = plan(&descriptors, 2).expect("planning succeeds");
    assert_eq!(first, second);
}

#[test]
fn test_aggregate_concatenates_in_chunk_order() {
    let chunk_results = vec![
        Ok(vec![value_item(1, "0x1"), value_item(2, "0x2")]),
        Ok(vec![value_item(3, "0x3"), value_item(4, "0x4")]),
        Ok(vec![value_item(5, "0x5")]),
    ];
    let merged = aggregate(chunk_results).expect("all chunks succeeded");
    assert_eq!(merged.len(), 5);
    for (i, item) in merged.iter().enumerate() {
        match item {
            JsonRpcResult::Value(response) => {
                assert_eq!(response.id, JsonRpcId::Integer(i as u64 + 1));
            }
            JsonRpcResult::Error(_) => panic!("no per-item error was injected"),
        }
    }
}

#[test]
fn test_aggregate_surfaces_per_item_errors_as_data() {
    let chunk_results = vec![
        Ok(vec![
            value_item(1, "0x1"),
            error_item(2, -32601, "Method not found"),
        ]),
        Ok(vec![value_item(3, "0x3")]),
    ];
    let merged = aggregate(chunk_results).expect("per-item errors are not call failures");
    assert_eq!(merged.len(), 3);
    assert!(matches!(merged[0], JsonRpcResult::Value(_)));
    match &merged[1] {
        JsonRpcResult::Error(item) => {
            assert_eq!(item.error.code, -32601);
            assert_eq!(item.error.message, "Method not found");
        }
        JsonRpcResult::Value(_) => panic!("the per-item error must survive the merge"),
    }
    assert!(matches!(merged[2], JsonRpcResult::Value(_)));
}

#[test]
fn test_aggregate_discards_sibling_success_on_failure() {
    // One chunk fails in transport while its sibling succeeds: the call
    // fails as a whole and the sibling's decoded values are not returned.
    let transport_error = JsonRpcError {
        code: INTERNAL_ERROR_CODE,
        message: "Internal error (connection refused)".to_string(),
    };
    let chunk_results = vec![
        Err(transport_error),
        Ok(vec![value_item(3, "0x3"), value_item(4, "0x4")]),
    ];
    let err = aggregate(chunk_results).unwrap_err();
    assert_eq!(err.code, INTERNAL_ERROR_CODE);
    assert_eq!(err.message, "Internal error (connection refused)");
}

#[test]
fn test_aggregate_reports_last_failed_chunk() {
    let first = JsonRpcError {
        code: INTERNAL_ERROR_CODE,
        message: "first failure".to_string(),
    };
    let second = JsonRpcError {
        code: PARSE_ERROR_CODE,
        message: "second failure".to_string(),
    };
    let chunk_results: Vec<Result<Vec<JsonRpcResult<Value>>, JsonRpcError>> = vec![
        Err(first),
        Ok(vec![value_item(2, "0x2")]),
        Err(second),
    ];
    let err = aggregate(chunk_results).unwrap_err();
    assert_eq!(err.code, PARSE_ERROR_CODE);
    assert_eq!(err.message, "second failure");
}
