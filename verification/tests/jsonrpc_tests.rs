use web3_proxy::jsonrpc::JsonRpcForwardedResponse;
use web3_proxy::jsonrpc::JsonRpcParseError;
use web3_proxy::jsonrpc::JsonRpcRequest;
use web3_proxy::jsonrpc::JsonRpcRequestEnum;
use web3_proxy::jsonrpc::RequestField;
use web3_proxy::jsonrpc::default_jsonrpc;

/// The boundary's job, done here for the tests: one JSON object's fields,
/// in order, decoded the way the library expects them.
fn fields_of(v: &serde_json::Value) -> Vec<RequestField> {
    let mut fields = Vec::new();
    for (k, val) in v.as_object().expect("an object") {
        let f = match k.as_str() {
            "jsonrpc" => RequestField::JsonRpc(val.as_str().expect("a string").to_string()),
            "id" => RequestField::Id(val.to_string()),
            "method" => RequestField::Method(val.as_str().expect("a string").to_string()),
            "params" => RequestField::Params(val.to_string()),
            _ => RequestField::Unknown,
        };
        fields.push(f);
    }
    fields
}

fn parse_enum(input: &str) -> JsonRpcRequestEnum {
    let v: serde_json::Value = serde_json::from_str(input).unwrap();
    if let Some(items) = v.as_array() {
        let slots: Vec<Result<JsonRpcRequest, JsonRpcParseError>> = items
            .iter()
            .map(|item| JsonRpcRequest::from_fields(&fields_of(item)))
            .collect();
        JsonRpcRequestEnum::Batch(slots)
    } else {
        JsonRpcRequestEnum::Single(JsonRpcRequest::from_fields(&fields_of(&v)).unwrap())
    }
}

#[test]
fn this_deserialize_single() {
    let input = r#"{"jsonrpc":"2.0","method":"eth_blockNumber","params":[],"id":1}"#;

    // test deserializing it directly to a single request object
    let v: serde_json::Value = serde_json::from_str(input).unwrap();
    let output = JsonRpcRequest::from_fields(&fields_of(&v)).unwrap();

    assert_eq!(output.id.to_string(), "1");
    assert_eq!(output.method, "eth_blockNumber");
    assert_eq!(output.params.unwrap().to_string(), "[]");

    // test deserializing it into an enum
    let output = parse_enum(input);

    assert!(matches!(output, JsonRpcRequestEnum::Single(_)));
}

#[test]
fn this_deserialize_batch() {
    let input = r#"[{"jsonrpc":"2.0","method":"eth_getCode","params":["0x5ba1e12693dc8f9c48aad8770482f4739beed696","0xe0e6a4"],"id":27},{"jsonrpc":"2.0","method":"eth_getTransactionCount","params":["0x5ba1e12693dc8f9c48aad8770482f4739beed696","0xe0e6a4"],"id":28},{"jsonrpc":"2.0","method":"eth_getBalance","params":["0x5ba1e12693dc8f9c48aad8770482f4739beed696","0xe0e6a4"],"id":29}]"#;

    // test deserializing it directly to a batch of request objects
    let v: serde_json::Value = serde_json::from_str(input).unwrap();
    let output: Vec<JsonRpcRequest> = v
        .as_array()
        .unwrap()
        .iter()
        .map(|item| JsonRpcRequest::from_fields(&fields_of(item)).unwrap())
        .collect();

    assert_eq!(output.len(), 3);

    assert_eq!(output[0].id.to_string(), "27");
    assert_eq!(output[0].method, "eth_getCode");
    assert_eq!(
        output[0].params.as_ref().unwrap().to_string(),
        r#"["0x5ba1e12693dc8f9c48aad8770482f4739beed696","0xe0e6a4"]"#
    );

    assert_eq!(output[1].id.to_string(), "28");
    assert_eq!(output[2].id.to_string(), "29");

    // test deserializing it into an enum
    let output = parse_enum(input);

    assert!(matches!(output, JsonRpcRequestEnum::Batch(_)));
}

#[test]
fn default_jsonrpc_is_2_0() {
    assert_eq!(default_jsonrpc(), "2.0");
}

#[test]
fn missing_jsonrpc_defaults() {
    let fields = vec![
        RequestField::Id("1".to_string()),
        RequestField::Method("eth_blockNumber".to_string()),
    ];
    let req = JsonRpcRequest::from_fields(&fields).unwrap();
    assert_eq!(req.jsonrpc, "2.0");
    // absent params become the empty array
    assert_eq!(req.params.as_deref(), Some("[]"));
}

#[test]
fn missing_id_is_rejected() {
    let fields = vec![RequestField::Method("eth_blockNumber".to_string())];
    assert_eq!(
        JsonRpcRequest::from_fields(&fields),
        Err(JsonRpcParseError::MissingId)
    );
}

#[test]
fn missing_method_is_rejected() {
    let fields = vec![RequestField::Id("1".to_string())];
    assert_eq!(
        JsonRpcRequest::from_fields(&fields),
        Err(JsonRpcParseError::MissingMethod)
    );
}

#[test]
fn duplicate_fields_are_rejected() {
    let dup_id = vec![
        RequestField::Id("1".to_string()),
        RequestField::Id("2".to_string()),
    ];
    assert_eq!(
        JsonRpcRequest::from_fields(&dup_id),
        Err(JsonRpcParseError::DuplicateId)
    );

    let dup_method = vec![
        RequestField::Id("1".to_string()),
        RequestField::Method("a".to_string()),
        RequestField::Method("b".to_string()),
    ];
    assert_eq!(
        JsonRpcRequest::from_fields(&dup_method),
        Err(JsonRpcParseError::DuplicateMethod)
    );

    let dup_params = vec![
        RequestField::Params("[]".to_string()),
        RequestField::Params("[]".to_string()),
    ];
    assert_eq!(
        JsonRpcRequest::from_fields(&dup_params),
        Err(JsonRpcParseError::DuplicateParams)
    );
}

#[test]
fn unknown_field_is_rejected() {
    let fields = vec![
        RequestField::Id("1".to_string()),
        RequestField::Method("a".to_string()),
        RequestField::Unknown,
    ];
    assert_eq!(
        JsonRpcRequest::from_fields(&fields),
        Err(JsonRpcParseError::UnknownField)
    );
}

#[test]
fn parse_error_response_is_invalid_request() {
    let resp = JsonRpcForwardedResponse::from_parse_error(JsonRpcParseError::MissingMethod);
    assert_eq!(resp.jsonrpc, "2.0");
    assert_eq!(resp.id, "null");
    assert!(resp.result.is_none());
    let err = resp.error.unwrap();
    assert_eq!(err.code, -32600);
    assert_eq!(err.message, "missing field `method`");
    assert!(err.data.is_none());
}

#[test]
fn parse_error_descriptions() {
    assert_eq!(JsonRpcParseError::DuplicateId.description(), "duplicate field `id`");
    assert_eq!(JsonRpcParseError::DuplicateMethod.description(), "duplicate field `method`");
    assert_eq!(JsonRpcParseError::DuplicateParams.description(), "duplicate field `params`");
    assert_eq!(JsonRpcParseError::MissingId.description(), "missing field `id`");
    assert_eq!(JsonRpcParseError::UnknownField.description(), "unknown field");
    assert_eq!(JsonRpcParseError::Malformed.description(), "invalid request");
}

#[test]
fn error_response_defaults() {
    let resp = JsonRpcForwardedResponse::from_str("boom", None, None);
    assert_eq!(resp.jsonrpc, "2.0");
    assert_eq!(resp.id, "null");
    assert!(resp.result.is_none());
    let err = resp.error.unwrap();
    assert_eq!(err.code, -32099);
    assert_eq!(err.message, "boom");
    assert!(err.data.is_none());
}

#[test]
fn success_response_keeps_id() {
    let resp =
        JsonRpcForwardedResponse::from_response("\"0x64\"".to_string(), "27".to_string());
    assert_eq!(resp.id, "27");
    assert_eq!(resp.result.as_deref(), Some("\"0x64\""));
    assert!(resp.error.is_none());
}
