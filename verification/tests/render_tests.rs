use web3_proxy::config::CliConfig;
use web3_proxy::frontend::backend_rpcs_header;
use web3_proxy::jsonrpc::JsonRpcErrorData;
use web3_proxy::jsonrpc::JsonRpcForwardedResponse;
use web3_proxy::jsonrpc::JsonRpcRequest;

#[test]
fn response_renders_compact_json() {
    let resp = JsonRpcForwardedResponse::from_response("\"0x64\"".to_string(), "1".to_string());
    assert_eq!(
        resp.to_json_bytes(),
        br#"{"jsonrpc":"2.0","id":1,"result":"0x64"}"#.to_vec()
    );
    assert_eq!(resp.num_bytes(), resp.to_json_bytes().len());
}

#[test]
fn error_response_renders_code_and_message() {
    let resp = JsonRpcForwardedResponse::from_str("no servers in sync", Some(-32603), Some("7".to_string()));
    assert_eq!(
        resp.to_json_bytes(),
        br#"{"jsonrpc":"2.0","id":7,"error":{"code":-32603,"message":"no servers in sync"}}"#.to_vec()
    );
}

#[test]
fn error_data_is_raw_json() {
    let resp = JsonRpcForwardedResponse {
        jsonrpc: "2.0".to_string(),
        id: "null".to_string(),
        result: None,
        error: Some(JsonRpcErrorData {
            code: 3,
            message: "reverted".to_string(),
            data: Some("\"0xdead\"".to_string()),
        }),
    };
    assert_eq!(
        resp.to_json_bytes(),
        br#"{"jsonrpc":"2.0","id":null,"error":{"code":3,"message":"reverted","data":"0xdead"}}"#.to_vec()
    );
}

#[test]
fn request_renders_all_fields() {
    let req = JsonRpcRequest {
        jsonrpc: "2.0".to_string(),
        id: "27".to_string(),
        method: "eth_getCode".to_string(),
        params: Some("[\"0x5b\"]".to_string()),
    };
    assert_eq!(
        req.to_json_bytes(),
        br#"{"jsonrpc":"2.0","id":27,"method":"eth_getCode","params":["0x5b"]}"#.to_vec()
    );
    assert_eq!(req.num_bytes(), req.to_json_bytes().len());

    let bare = JsonRpcRequest { params: None, ..req };
    assert_eq!(
        bare.to_json_bytes(),
        br#"{"jsonrpc":"2.0","id":27,"method":"eth_getCode","params":null}"#.to_vec()
    );
}

#[test]
fn string_escaping_matches_the_common_printers() {
    let tricky = "a\"b\\c\nd\te\u{1}f\u{1f}g\x08\x0c\rh€";
    let resp = JsonRpcForwardedResponse::from_string(tricky.to_string(), None, None);
    let mine = String::from_utf8(resp.to_json_bytes()).unwrap();
    let reference = serde_json::to_string(&tricky).unwrap();
    assert!(
        mine.contains(&reference[1..reference.len() - 1]),
        "escaping differs: {mine} vs {reference}"
    );
    // and the whole response parses back to the same message
    let parsed: serde_json::Value = serde_json::from_str(&mine).unwrap();
    assert_eq!(parsed["error"]["message"].as_str(), Some(tricky));
    assert_eq!(parsed["error"]["code"].as_i64(), Some(-32099));
    assert_eq!(parsed["id"], serde_json::Value::Null);
}

#[test]
fn negative_and_boundary_codes_render() {
    for (code, text) in [
        (0i64, "0"),
        (-1, "-1"),
        (i64::MAX, "9223372036854775807"),
        (i64::MIN, "-9223372036854775808"),
    ] {
        let resp = JsonRpcForwardedResponse::from_str("x", Some(code), Some("1".to_string()));
        let body = String::from_utf8(resp.to_json_bytes()).unwrap();
        assert!(body.contains(&format!("\"code\":{text},")), "{body}");
    }
}

#[test]
fn backend_header_joins_names_and_flags_backups() {
    let rpcs = vec![
        ("alpha".to_string(), false),
        ("beta".to_string(), true),
        ("gamma".to_string(), false),
    ];
    let (joined, backup) = backend_rpcs_header(&rpcs);
    assert_eq!(joined, "alpha,beta,gamma");
    assert!(backup);

    let (joined, backup) = backend_rpcs_header(&Vec::new());
    assert_eq!(joined, "");
    assert!(!backup);

    let (joined, backup) = backend_rpcs_header(&vec![("solo".to_string(), false)]);
    assert_eq!(joined, "solo");
    assert!(!backup);
}

#[test]
fn cli_defaults() {
    let cli = CliConfig::default();
    assert_eq!(cli.port, 8544);
    assert_eq!(cli.workers, 0);
    assert_eq!(cli.config, "./config/development.toml");
}
