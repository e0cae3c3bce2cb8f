use traework_assistant::accounts::Account;
use traework_assistant::http::{
    chunk_end, chunk_frame, chunked_head, downstream_headers, empty_head, find_slice, header_value,
    hop_by_hop, normalize_target, parse_request, read_step, req_body, response_head, status_of,
    ReadStep, MAX_BODY, MAX_HEAD,
};
use traework_assistant::proxy;
use traework_assistant::proxy::{
    ListenPlan, Listener, Next, Outcome, Plan, Route, Seen, WsUpstream, CONFIG_POLL,
    FAILOVER_MAX_TRIES, LEASE_HEARTBEAT,
};
use traework_assistant::routing::Pool;
use traework_assistant::rules::Rules;
use traework_assistant::table::Table;

fn acct(id: &str) -> Account {
    Account {
        id: id.into(),
        name: id.into(),
        phone: None,
        region: None,
        user_id: None,
        token: "t".into(),
        refresh_token: None,
        host: None,
        expires_at: None,
        refresh_expires_at: None,
        device_id: None,
        machine_id: None,
        created_at: String::new(),
        enabled: true,
        credit_snapshot: None,
    }
}

fn nothing_seen() -> Seen {
    Seen { paths: Table::new(), unbound: Table::new() }
}

#[test]
fn proxy_parses_request_head() {
    let raw = b"POST /api/remote/v1/chat_sessions/c1/messages HTTP/1.1\r\nHost: x\r\nContent-Length: 2\r\nX-Conversation-Id: c1\r\n\r\n{}";
    let req = parse_request(raw).unwrap();
    assert_eq!(req.method, "POST");
    assert_eq!(req.target, "/api/remote/v1/chat_sessions/c1/messages");
    assert_eq!(req.body_len, 2);
    assert_eq!(header_value(&req, "x-conversation-id"), Some("c1"));
}

#[test]
fn proxy_rejects_incomplete() {
    assert_eq!(parse_request(b"GET /x HTTP/1.1\r\n"), None);
    assert_eq!(parse_request(b"garbage"), None);
}

#[test]
fn proxy_hop_by_hop_filters_token() {
    assert!(hop_by_hop("Authorization"));
    assert!(!hop_by_hop("Content-Type"));
}

#[test]
fn normalize_strips_absolute_uri() {
    assert_eq!(
        normalize_target("http://127.0.0.1:8788/api/remote/v1/models"),
        "/api/remote/v1/models"
    );
    assert_eq!(normalize_target("/api/remote/v1/models"), "/api/remote/v1/models");
}

#[test]
fn a_request_is_read_in_steps() {
    let raw = b"POST /x HTTP/1.1\r\nContent-Length: 3\r\n\r\nabc";
    assert!(matches!(read_step(&raw[..10]), ReadStep::More));
    assert!(matches!(read_step(&raw[..raw.len() - 1]), ReadStep::More));
    match read_step(raw) {
        ReadStep::Done(req) => assert_eq!(req_body(raw, &req), b"abc"),
        _ => panic!("the request is complete"),
    }
    let long = vec![b'a'; MAX_HEAD + MAX_BODY + 1];
    assert!(matches!(read_step(&long), ReadStep::TooLong));
}

#[test]
fn bytes_are_found_where_they_stand() {
    assert_eq!(find_slice(b"abcabc", b"ca"), Some(2));
    assert_eq!(find_slice(b"abc", b"x"), None);
}

#[test]
fn answers_are_framed() {
    assert_eq!(
        response_head(200, "text/plain", 5, &[]),
        "HTTP/1.1 200 OK\r\nContent-Type: text/plain\r\nContent-Length: 5\r\nConnection: close\r\n\r\n"
    );
    assert!(empty_head(204, &[]).starts_with("HTTP/1.1 204 "));
    assert!(chunked_head(200, &[]).contains("Transfer-Encoding: chunked\r\n"));
    assert_eq!(chunk_frame(b"0123456789abcdef"), b"10\r\n0123456789abcdef\r\n".to_vec());
    assert_eq!(chunk_end(), b"0\r\n\r\n".to_vec());
    assert_eq!(status_of(b"HTTP/1.1 429 Too Many Requests\r\n"), Some(429));
    assert_eq!(status_of(b"garbage"), None);
}

#[test]
fn framing_headers_of_the_upstream_are_dropped() {
    let up = vec![
        ("Content-Type".to_string(), "text/event-stream".to_string()),
        ("Transfer-Encoding".to_string(), "chunked".to_string()),
    ];
    let more = vec![("X-More".to_string(), "1".to_string())];
    let out = downstream_headers(&up, &more);
    assert!(out.iter().any(|(k, _)| k.eq_ignore_ascii_case("content-type")));
    assert!(!out.iter().any(|(k, _)| k.eq_ignore_ascii_case("transfer-encoding")));
    assert!(out.iter().any(|(k, v)| k == "X-More" && v == "1"));
}

#[test]
fn settings_decide_about_listening() {
    assert!(matches!(proxy::listen_plan(None, 1), ListenPlan::Idle(2000)));
    assert!(matches!(proxy::listen_plan(Some(false), 1), ListenPlan::Idle(500)));
    assert!(matches!(proxy::listen_plan(Some(true), 8788), ListenPlan::Bind(8788)));
    assert!(!proxy::status(None).active);
    assert!(proxy::listening(8788).active);
    assert_eq!(
        proxy::bind_failed(8788, None, "denied").error.as_deref(),
        Some("端口 8788 无法监听：denied")
    );
    assert_eq!(
        proxy::bind_failed(8788, Some("被占用".into()), "x").error.as_deref(),
        Some("端口 8788 被占用")
    );
}

#[test]
fn the_listener_looks_at_the_settings_and_renews_the_lease() {
    let mut l = Listener::new(8788, 1000);
    assert!(!l.config_due(1000 + CONFIG_POLL - 1));
    assert!(l.config_due(1000 + CONFIG_POLL));
    assert!(l.config_seen(2000, true, 8788));
    assert!(!l.config_due(2000));
    assert!(!l.config_seen(3000, true, 8789));
    assert!(!l.config_seen(3000, false, 8788));
    assert!(!l.lease_due(1000 + LEASE_HEARTBEAT - 1));
    assert!(l.lease_due(1000 + LEASE_HEARTBEAT));
    assert!(!l.lease_due(1000 + LEASE_HEARTBEAT + 1));
}

#[test]
fn the_host_of_an_address_is_known() {
    assert_eq!(proxy::host_of("https://Trae-API.Example:8443/x?y"), "trae-api.example");
    assert_eq!(proxy::host_of("plain.example"), "plain.example");
}

#[test]
fn a_tunnel_is_refused_and_a_request_needs_an_upstream() {
    let tunnel = parse_request(b"CONNECT a:443 HTTP/1.1\r\n\r\n").unwrap();
    match proxy::route(&tunnel, true, None) {
        Route::Answer(a) => assert_eq!(a.status, 405),
        _ => panic!("no tunnel"),
    }
    let plain = parse_request(b"GET /x HTTP/1.1\r\n\r\n").unwrap();
    match proxy::route(&plain, false, None) {
        Route::Answer(a) => assert_eq!(a.status, 502),
        _ => panic!("no upstream"),
    }
    assert!(matches!(proxy::route(&plain, true, None), Route::Upstream));
    let up = WsUpstream {
        secure: true,
        host: "ws.example".into(),
        port: 443,
        path: "/custom_model".into(),
    };
    let ws = parse_request(
        b"GET /custom_model HTTP/1.1\r\nUpgrade: websocket\r\nConnection: Upgrade\r\n\r\n",
    )
    .unwrap();
    assert!(proxy::is_websocket_upgrade(&ws));
    assert!(matches!(proxy::route(&ws, true, Some(&up)), Route::Realtime));
}

#[test]
fn a_charged_request_is_swapped_and_its_own_credentials_stay_behind() {
    let raw = b"POST /api/remote/v1/chat_sessions/c1/messages HTTP/1.1\r\nAuthorization: Cloud-IDE-JWT own\r\nContent-Type: application/json\r\nContent-Length: 2\r\n\r\n{}";
    let req = parse_request(raw).unwrap();
    let mut seen = nothing_seen();
    match proxy::plan_request(&mut seen, raw, &req, "https://up.example", &Rules::default()) {
        Plan::Swap(f) => {
            assert_eq!(f.url, "https://up.example/api/remote/v1/chat_sessions/c1/messages");
            assert_eq!(f.conv.as_deref(), Some("c1"));
            assert_eq!(f.body, b"{}".to_vec());
            assert!(!f.headers.iter().any(|(k, _)| k.eq_ignore_ascii_case("authorization")));
            assert!(f.headers.iter().any(|(k, _)| k.eq_ignore_ascii_case("content-type")));
        }
        _ => panic!("the path is charged"),
    }
}

#[test]
fn any_other_request_passes_with_its_own_credentials() {
    let raw = b"GET /api/remote/v1/skills HTTP/1.1\r\nAuthorization: Cloud-IDE-JWT own\r\n\r\n";
    let req = parse_request(raw).unwrap();
    let mut seen = nothing_seen();
    match proxy::plan_request(&mut seen, raw, &req, "https://up.example", &Rules::default()) {
        Plan::Pass(_, auth) => assert_eq!(auth.as_deref(), Some("Cloud-IDE-JWT own")),
        _ => panic!("the path is not charged"),
    }
}

#[test]
fn a_limited_account_is_left_and_the_request_sent_again() {
    let mut pool = Pool::new();
    let mut ban: Vec<String> = Vec::new();
    let a = acct("a");
    let conv = Some("c".to_string());
    pool.sticky_put("c", "a".into(), 0);
    let all = vec![acct("a"), acct("b"), acct("c"), acct("z")];
    let limit = Outcome::Status(429);
    match proxy::after_reply(&mut pool, &all, &[], &mut ban, &a, &conv, "/p", limit, 10) {
        Next::Again(note) => {
            assert_eq!(note.event, "failover");
            assert_eq!(note.detail, "账号「a」触发限流（429，/p），已无感切换备用账号继续服务");
        }
        _ => panic!("another account is tried"),
    }
    assert!(pool.cooling("a", 11));
    assert_eq!(pool.sticky_hit("c", 11), None);
    assert_eq!(ban, vec!["a".to_string()]);
    for id in ["b", "c"].iter().take(FAILOVER_MAX_TRIES - 2) {
        let next = proxy::after_reply(
            &mut pool,
            &all,
            &[],
            &mut ban,
            &acct(id),
            &None,
            "/p",
            Outcome::Status(429),
            10,
        );
        assert!(matches!(next, Next::Again(_)));
    }
    let last = proxy::after_reply(
        &mut pool,
        &all,
        &[],
        &mut ban,
        &acct("z"),
        &None,
        "/p",
        Outcome::Status(429),
        10,
    );
    assert!(matches!(last, Next::Relay(_)), "the request was sent often enough");
}

#[test]
fn other_outcomes_end_the_request() {
    let mut pool = Pool::new();
    let mut ban: Vec<String> = Vec::new();
    let a = acct("a");
    let all = vec![acct("a"), acct("b")];
    let fine = Outcome::Status(200);
    let ok = proxy::after_reply(&mut pool, &all, &[], &mut ban, &a, &None, "/p", fine, 0);
    assert!(matches!(ok, Next::Relay(None)));
    let bad = proxy::after_reply(
        &mut pool,
        &all,
        &[],
        &mut ban,
        &a,
        &None,
        "/p",
        Outcome::Failed("reset".into()),
        0,
    );
    match bad {
        Next::Answer(r) => assert_eq!(r.status, 502),
        _ => panic!("the upstream has failed"),
    }
    assert_eq!(proxy::no_account().status, 503);
    assert_eq!(proxy::bad_request(b"garbage").status, 400);
    assert_eq!(proxy::credential(&a), "Cloud-IDE-JWT t");
}

#[test]
fn a_path_is_noted_once() {
    let mut seen: Table<()> = Table::new();
    let r = Rules::default();
    assert!(proxy::note_path(&mut seen, &r, "GET", "h", "/api/remote/v1/models").is_some());
    assert!(proxy::note_path(&mut seen, &r, "GET", "h", "/api/remote/v1/models").is_none());
    assert!(proxy::note_path(&mut seen, &r, "POST", "h", "/api/remote/v1/models").is_some());
}

#[test]
fn a_limit_is_handed_on_where_no_other_account_is_left() {
    let mut pool = Pool::new();
    let mut ban: Vec<String> = Vec::new();
    let a = acct("a");
    let one = vec![acct("a")];
    let limit = Outcome::Status(429);
    let next = proxy::after_reply(&mut pool, &one, &[], &mut ban, &a, &None, "/p", limit, 10);
    assert!(matches!(next, Next::Relay(_)), "nobody else can serve");
    assert!(pool.cooling("a", 11));
    // An account that is not charged is not there to take over.
    let two = vec![acct("a"), acct("b")];
    let chosen = vec!["a".to_string()];
    assert!(proxy::another_left(&two, &[], &[], &a));
    assert!(!proxy::another_left(&two, &chosen, &[], &a));
    assert!(!proxy::another_left(&two, &[], &["b".to_string()], &a));
    assert!(!proxy::another_left(&one, &[], &[], &a));
}

#[test]
fn a_url_in_the_query_stays_in_the_query() {
    assert_eq!(normalize_target("/go?to=http://h/x"), "/go?to=http://h/x");
    assert_eq!(normalize_target("http://h/go?to=http://k/x"), "/go?to=http://k/x");
    assert_eq!(normalize_target("http://h?x=1"), "?x=1");
    assert_eq!(normalize_target("http://h"), "/");
}
