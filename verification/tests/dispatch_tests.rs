use web3_proxy::config::Web3ConnectionConfig;
use web3_proxy::dispatch::BackendInfo;
use web3_proxy::dispatch::ConnectionPool;
use web3_proxy::dispatch::NextUpstream;
use web3_proxy::dispatch::PrivateFanout;
use web3_proxy::dispatch::RoundOutcome;
use web3_proxy::dispatch::Web3ProxyApp;
use web3_proxy::dispatch::backend_candidates;
use web3_proxy::dispatch::first_ok;
use web3_proxy::dispatch::handle_backend_reply;
use web3_proxy::dispatch::backend_reply_action;
use web3_proxy::dispatch::proxy_web3_rpc_requests;
use web3_proxy::dispatch::ReplyAction;
use web3_proxy::jsonrpc::ClientError;
use web3_proxy::jsonrpc::JsonRpcErrorData;
use web3_proxy::jsonrpc::JsonRpcRequest;
use web3_proxy::jsonrpc::JsonRpcParseError;
use web3_proxy::jsonrpc::ProviderError;
use web3_proxy::rate_limit::DeferredRateLimitResult;

fn backend(name: &str, head: u64, soft: u64, in_flight: u64) -> BackendInfo {
    BackendInfo {
        name: name.to_string(),
        head_block_number: head,
        soft_limit: soft,
        in_flight,
        backup: false,
    }
}

fn request(id: &str, method: &str) -> JsonRpcRequest {
    JsonRpcRequest {
        jsonrpc: "2.0".to_string(),
        id: id.to_string(),
        method: method.to_string(),
        params: Some("[]".to_string()),
    }
}

fn no_excl(pool: &ConnectionPool) -> Vec<bool> {
    vec![false; pool.backends.len()]
}

fn no_excl_app(app: &Web3ProxyApp) -> Vec<Vec<bool>> {
    app.balanced_rpc_tiers
        .iter()
        .chain(app.private_rpcs.iter())
        .map(|p| vec![false; p.backends.len()])
        .collect()
}

fn app_with(tiers: Vec<ConnectionPool>, private: Option<ConnectionPool>, best: u64) -> Web3ProxyApp {
    let mut app = Web3ProxyApp::try_new(&Vec::new(), &Vec::new());
    app.best_head_block_number = best;
    app.balanced_rpc_tiers = tiers;
    app.private_rpcs = private;
    app
}

#[test]
fn candidates_prefer_light_load_then_config_order() {
    // loads: 5/10, 1/10, 2/10, and a tie between the last two
    let backends = vec![
        backend("a", 100, 10, 5),
        backend("b", 100, 10, 1),
        backend("c", 100, 10, 2),
        backend("d", 100, 20, 4),
    ];
    // c and d are tied at 0.2: c comes first (configuration order)
    assert_eq!(backend_candidates(&backends, 100), vec![1, 2, 3, 0]);
}

#[test]
fn candidates_skip_lagging_backends() {
    let backends = vec![
        backend("a", 99, 10, 0),
        backend("b", 100, 10, 5),
        backend("zero-slots", 100, 0, 0),
    ];
    assert_eq!(backend_candidates(&backends, 100), vec![1]);
}

#[test]
fn busy_backend_is_passed_over() {
    let pool = ConnectionPool {
        head_block_number: 100,
        backends: vec![backend("a", 100, 2, 2), backend("b", 100, 10, 9)],
    };
    let verdicts = vec![DeferredRateLimitResult::Allowed; 2];
    // "a" is lighter but has no free slot: "b" serves
    assert_eq!(pool.next_upstream_server(0, &verdicts, &no_excl(&pool)), NextUpstream::Server(1));
}

#[test]
fn rate_limited_pool_reports_earliest_retry() {
    let pool = ConnectionPool {
        head_block_number: 100,
        backends: vec![backend("a", 100, 10, 0), backend("b", 100, 10, 0)],
    };
    let verdicts = vec![
        DeferredRateLimitResult::RetryAt(500),
        DeferredRateLimitResult::RetryAt(300),
    ];
    assert_eq!(pool.next_upstream_server(0, &verdicts, &no_excl(&pool)), NextUpstream::RateLimited(300));
}

#[test]
fn nothing_synced_is_not_a_rate_limit() {
    let pool = ConnectionPool {
        head_block_number: 100,
        backends: vec![backend("a", 90, 10, 0)],
    };
    let verdicts = vec![DeferredRateLimitResult::Allowed];
    assert_eq!(pool.next_upstream_server(0, &verdicts, &no_excl(&pool)), NextUpstream::NotSynced);
}

#[test]
fn cache_hit_short_circuits_backends() {
    let pool = ConnectionPool {
        head_block_number: 100,
        backends: vec![backend("only", 100, 10, 0)],
    };
    let mut app = app_with(vec![pool], None, 100);
    let req = request("1", "eth_blockNumber");
    let key = app.cache_key_for(&req);
    app.store_response(key, "\"0x64\"".to_string());

    let verdicts = vec![vec![DeferredRateLimitResult::Allowed]];
    match app.dispatch_round(&req, 0, &verdicts, &no_excl_app(&app)) {
        RoundOutcome::CacheHit(resp) => {
            assert_eq!(resp.id, "1");
            assert_eq!(resp.result.as_deref(), Some("\"0x64\""));
            assert!(resp.error.is_none());
            assert_eq!(
                resp.to_json_bytes(),
                br#"{"jsonrpc":"2.0","id":1,"result":"0x64"}"#.to_vec()
            );
        }
        _ => panic!("expected the cached answer"),
    }
}

#[test]
fn lagging_tier_is_skipped() {
    let pool_a = ConnectionPool {
        head_block_number: 99,
        backends: vec![backend("a", 99, 10, 0)],
    };
    let pool_b = ConnectionPool {
        head_block_number: 100,
        backends: vec![backend("b", 100, 10, 0)],
    };
    let app = app_with(vec![pool_a, pool_b], None, 100);
    let verdicts = vec![
        vec![DeferredRateLimitResult::Allowed],
        vec![DeferredRateLimitResult::Allowed],
    ];
    let req = request("1", "eth_getBalance");
    match app.dispatch_round(&req, 0, &verdicts, &no_excl_app(&app)) {
        RoundOutcome::CallBackend { pool, backend } => {
            assert_eq!((pool, backend), (1, 0));
        }
        _ => panic!("pool B should serve"),
    }
}

#[test]
fn all_rate_limited_backs_off_until_earliest() {
    let pool = ConnectionPool {
        head_block_number: 100,
        backends: vec![backend("a", 100, 10, 0)],
    };
    let app = app_with(vec![pool], None, 100);
    let verdicts = vec![vec![DeferredRateLimitResult::RetryAt(500)]];
    let req = request("1", "eth_getBalance");
    match app.dispatch_round(&req, 0, &verdicts, &no_excl_app(&app)) {
        RoundOutcome::Backoff(t) => assert_eq!(t, 500),
        _ => panic!("expected a backoff"),
    }
}

#[test]
fn nothing_in_sync_fails_the_request() {
    let pool = ConnectionPool {
        head_block_number: 90,
        backends: vec![backend("a", 90, 10, 0)],
    };
    let app = app_with(vec![pool], None, 100);
    let verdicts = vec![vec![DeferredRateLimitResult::Allowed]];
    let req = request("1", "eth_getBalance");
    assert!(matches!(
        app.dispatch_round(&req, 0, &verdicts, &no_excl_app(&app)),
        RoundOutcome::NoServers
    ));
}

#[test]
fn transaction_broadcasts_use_the_private_pool() {
    let private = ConnectionPool {
        head_block_number: 100,
        backends: vec![
            backend("p1", 100, 10, 0),
            backend("p2", 100, 10, 0),
            backend("p3", 100, 10, 10),
        ],
    };
    let app = app_with(Vec::new(), Some(private), 100);
    let tx = request("1", "eth_sendRawTransaction");
    assert!(app.use_private_fanout(&tx));
    assert!(!app.use_private_fanout(&request("1", "eth_blockNumber")));

    let verdicts = vec![DeferredRateLimitResult::Allowed; 3];
    match app.private_handles(&verdicts) {
        PrivateFanout::Fanout(handles) => assert_eq!(handles, vec![0, 1]),
        _ => panic!("two backends are free"),
    }
}

#[test]
fn private_pool_waits_for_earliest_retry() {
    let private = ConnectionPool {
        head_block_number: 100,
        backends: vec![backend("p1", 100, 10, 0), backend("p2", 100, 10, 0)],
    };
    let app = app_with(Vec::new(), Some(private), 100);
    let verdicts = vec![
        DeferredRateLimitResult::RetryAt(800),
        DeferredRateLimitResult::RetryAt(400),
    ];
    assert!(matches!(app.private_handles(&verdicts), PrivateFanout::Wait(400)));
}

#[test]
fn without_private_pool_broadcasts_take_the_tiered_path() {
    let app = app_with(Vec::new(), None, 100);
    assert!(!app.use_private_fanout(&request("1", "eth_sendRawTransaction")));
    assert!(matches!(app.private_handles(&Vec::new()), PrivateFanout::NoPrivate));
}

#[test]
fn first_ok_wins_and_errors_never_displace_it() {
    let replies = vec![
        Err(ProviderError::Other("slow".to_string())),
        Ok("\"0xhash\"".to_string()),
        Err(ProviderError::Other("late".to_string())),
        Ok("\"0xother\"".to_string()),
    ];
    assert_eq!(first_ok(&replies), Some(1));
    assert_eq!(first_ok(&Vec::new()), None);
    let all_errors: Vec<Result<String, ProviderError>> =
        vec![Err(ProviderError::Other("down".to_string()))];
    assert_eq!(first_ok(&all_errors), None);
}

#[test]
fn upstream_error_objects_pass_through_verbatim() {
    let upstream = JsonRpcErrorData {
        code: 3,
        message: "execution reverted".to_string(),
        data: Some("\"0x08c379a0\"".to_string()),
    };
    let resp = handle_backend_reply(
        Err(ProviderError::JsonRpcClientError(ClientError::JsonRpcError(upstream.clone()))),
        "9".to_string(),
    );
    assert_eq!(resp.id, "9");
    assert_eq!(resp.error, Some(upstream));
    assert!(resp.result.is_none());
}

#[test]
fn transport_errors_become_internal_errors() {
    let resp = handle_backend_reply(
        Err(ProviderError::Other("connection refused".to_string())),
        "9".to_string(),
    );
    let err = resp.error.unwrap();
    assert_eq!(err.code, -32603);
    assert_eq!(err.message, "connection refused");
    assert!(err.data.is_none());
}

#[test]
fn batch_preserves_order_and_ids() {
    let slots = vec![
        Ok(request("27", "eth_getCode")),
        Ok(request("\"28\"", "eth_getTransactionCount")),
        Ok(request("29", "eth_getBalance")),
    ];
    let replies = vec![
        Ok("\"0xa\"".to_string()),
        Err(ProviderError::Other("down".to_string())),
        Ok("\"0xc\"".to_string()),
    ];
    let responses = proxy_web3_rpc_requests(&slots, &replies);
    assert_eq!(responses.len(), 3);
    assert_eq!(responses[0].id, "27");
    // a quoted id stays quoted, byte for byte
    assert_eq!(responses[1].id, "\"28\"");
    assert_eq!(responses[2].id, "29");
    assert_eq!(responses[0].result.as_deref(), Some("\"0xa\""));
    assert!(responses[1].error.is_some());
    assert_eq!(responses[2].result.as_deref(), Some("\"0xc\""));
}

#[test]
fn malformed_batch_slot_carries_error_and_leaves_others_alone() {
    let slots = vec![
        Ok(request("1", "eth_blockNumber")),
        Err(JsonRpcParseError::MissingMethod),
        Ok(request("3", "eth_getBalance")),
    ];
    // only the two parsed slots went to a backend
    let replies = vec![Ok("\"0xa\"".to_string()), Ok("\"0xb\"".to_string())];
    let responses = proxy_web3_rpc_requests(&slots, &replies);
    assert_eq!(responses.len(), 3);
    assert_eq!(responses[0].id, "1");
    assert_eq!(responses[0].result.as_deref(), Some("\"0xa\""));
    let err = responses[1].error.as_ref().unwrap();
    assert_eq!(err.code, -32600);
    assert_eq!(err.message, "missing field `method`");
    assert_eq!(responses[1].id, "null");
    assert_eq!(responses[2].id, "3");
    assert_eq!(responses[2].result.as_deref(), Some("\"0xb\""));
}

#[test]
fn transport_failure_tries_the_next_backend() {
    let pool = ConnectionPool {
        head_block_number: 100,
        backends: vec![backend("light", 100, 10, 0), backend("heavy", 100, 10, 5)],
    };
    let app = app_with(vec![pool], None, 100);
    let verdicts = vec![vec![DeferredRateLimitResult::Allowed; 2]];
    let mut excluded = vec![vec![false; 2]];
    let req = request("1", "eth_getBalance");

    // the lighter backend is tried first
    let first = match app.dispatch_round(&req, 0, &verdicts, &excluded) {
        RoundOutcome::CallBackend { pool, backend } => (pool, backend),
        _ => panic!("expected a backend"),
    };
    assert_eq!(first, (0, 0));

    // its call fails at the transport level: try the next one
    let action = backend_reply_action(
        Err(ProviderError::Other("connection refused".to_string())),
        req.id.clone(),
    );
    let fallback = match action {
        ReplyAction::TryNextThen(resp) => resp,
        ReplyAction::Respond(_) => panic!("a transport failure is retried"),
    };
    excluded[0][0] = true;
    let second = match app.dispatch_round(&req, 0, &verdicts, &excluded) {
        RoundOutcome::CallBackend { pool, backend } => (pool, backend),
        _ => panic!("expected the other backend"),
    };
    assert_eq!(second, (0, 1));

    // both exhausted: the carried translation is what gets surfaced
    excluded[0][1] = true;
    assert!(matches!(
        app.dispatch_round(&req, 0, &verdicts, &excluded),
        RoundOutcome::NoServers
    ));
    let err = fallback.error.unwrap();
    assert_eq!(err.code, -32603);
    assert_eq!(err.message, "connection refused");
    assert_eq!(fallback.id, "1");
}

#[test]
fn upstream_error_object_is_not_retried() {
    let action = backend_reply_action(
        Err(ProviderError::JsonRpcClientError(ClientError::JsonRpcError(JsonRpcErrorData {
            code: 3,
            message: "execution reverted".to_string(),
            data: None,
        }))),
        "5".to_string(),
    );
    match action {
        ReplyAction::Respond(resp) => {
            assert_eq!(resp.error.unwrap().code, 3);
            assert_eq!(resp.id, "5");
        }
        ReplyAction::TryNextThen(_) => panic!("an upstream error object is authoritative"),
    }
}

#[test]
fn new_app_from_configs() {
    let tiers = vec![
        vec![Web3ConnectionConfig::new("http://one".to_string(), 200, None)],
        vec![Web3ConnectionConfig::new("http://two".to_string(), 100, Some(50))],
    ];
    let private = vec![Web3ConnectionConfig::new("http://p".to_string(), 10, None)];
    let app = Web3ProxyApp::try_new(&tiers, &private);
    assert_eq!(app.best_head_block_number, 0);
    assert_eq!(app.balanced_rpc_tiers.len(), 2);
    assert_eq!(app.balanced_rpc_tiers[0].backends[0].name, "http://one");
    assert_eq!(app.balanced_rpc_tiers[0].backends[0].soft_limit, 200);
    assert!(app.private_rpcs.is_some());

    let no_private = Web3ProxyApp::try_new(&tiers, &Vec::new());
    assert!(no_private.private_rpcs.is_none());
}

#[test]
fn best_head_only_rises() {
    let mut app = app_with(Vec::new(), None, 10);
    app.raise_best_head(9);
    assert_eq!(app.best_head_block_number, 10);
    app.raise_best_head(12);
    assert_eq!(app.best_head_block_number, 12);
}

#[test]
fn in_flight_accounting() {
    let mut b = backend("a", 100, 10, 0);
    b.note_request_started();
    b.note_request_started();
    assert_eq!(b.in_flight, 2);
    b.note_request_finished();
    assert_eq!(b.in_flight, 1);
    b.note_request_finished();
    b.note_request_finished();
    assert_eq!(b.in_flight, 0);

    b.raise_head_block(101);
    assert_eq!(b.head_block_number, 101);
    b.raise_head_block(100);
    assert_eq!(b.head_block_number, 101);
}
