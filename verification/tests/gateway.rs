use traework_assistant::accounts::Account;
use traework_assistant::gateway;
use traework_assistant::gateway::is_chat_path;
use traework_assistant::http::{header_value, hop_by_hop, parse_request};
use traework_assistant::proxy::Outcome;
use traework_assistant::routing::{billing_candidates, Pool};

fn account(id: &str) -> Account {
    Account {
        id: id.into(),
        name: id.into(),
        phone: None,
        region: None,
        user_id: None,
        token: "t".into(),
        refresh_token: None,
        host: None,
        expires_at: None,
        refresh_expires_at: None,
        device_id: None,
        machine_id: None,
        created_at: String::new(),
        enabled: true,
        credit_snapshot: None,
    }
}

#[test]
fn gateway_parses_request_head() {
    let raw = b"POST /v1/chat/completions HTTP/1.1\r\nHost: x\r\nContent-Length: 2\r\nX-Conversation-Id: c1\r\n\r\n{}";
    let req = parse_request(raw).unwrap();
    assert_eq!(req.method, "POST");
    assert_eq!(req.target, "/v1/chat/completions");
    assert_eq!(req.body_len, 2);
    assert_eq!(header_value(&req, "x-conversation-id"), Some("c1"));
}

#[test]
fn gateway_rejects_incomplete() {
    assert_eq!(parse_request(b"GET /x HTTP/1.1\r\n"), None);
    assert_eq!(parse_request(b"garbage"), None);
}

#[test]
fn gateway_hop_by_hop_filters_token() {
    assert!(hop_by_hop("Authorization"));
    assert!(!hop_by_hop("Content-Type"));
}

#[test]
fn chat_path_detection() {
    assert!(is_chat_path("/v1/chat/completions"));
    assert!(is_chat_path("http://127.0.0.1:8788/v1/chat/completions"));
    assert!(is_chat_path("/v1/messages"));
    assert!(!is_chat_path("/v1/models"));
}

#[test]
fn gateway_billing_candidates_restricts() {
    let all = vec![account("a"), account("b")];
    assert_eq!(billing_candidates(&all, &[]).len(), 2);
    assert_eq!(billing_candidates(&all, &["b".into()]).len(), 1);
    assert_eq!(billing_candidates(&all, &["zz".into()]).len(), 2, "勾选失效退回全部");
}

#[test]
fn status_follows_the_listener() {
    let none = gateway::status(None);
    assert!(!none.active);
    let up = gateway::listening(8788);
    assert!(up.active);
    assert_eq!(up.port, 8788);
    assert_eq!(up.error, None);
    let down = gateway::bind_failed(8788, "busy");
    assert!(!down.active);
    assert!(down.error.is_some());
    assert!(gateway::keeps_listening(true, 8788, 8788));
    assert!(!gateway::keeps_listening(true, 8789, 8788));
    assert!(!gateway::keeps_listening(false, 8788, 8788));
}

#[test]
fn conversation_comes_from_the_header() {
    let raw = b"POST /v1/chat/completions HTTP/1.1\r\nX-Conversation-Id: c1\r\n\r\n";
    let req = parse_request(raw).unwrap();
    assert_eq!(gateway::conversation(&req).as_deref(), Some("c1"));
    let plain = parse_request(b"POST /v1/chat/completions HTTP/1.1\r\n\r\n").unwrap();
    assert_eq!(gateway::conversation(&plain), None);
}

#[test]
fn first_warm_account_serves_and_keeps_the_conversation() {
    let mut pool = Pool::new();
    let all = vec![account("a"), account("b")];
    let conv = Some("c1".to_string());
    let first = gateway::choose_account(&mut pool, &all, &[], &[], &conv, 1000).unwrap();
    assert_eq!(first.id, "a");
    // A limit cools the account down and lets the conversation go to the next one.
    let mut ban: Vec<String> = Vec::new();
    let limit = Outcome::Status(429);
    let next = gateway::after_reply(&mut pool, &all, &[], &mut ban, &first, &conv, limit, 1000);
    assert!(matches!(next, gateway::Next::Again));
    let second = gateway::choose_account(&mut pool, &all, &[], &ban, &conv, 1001).unwrap();
    assert_eq!(second.id, "b");
    // The conversation stays with it.
    let again = gateway::choose_account(&mut pool, &all, &[], &[], &conv, 2000).unwrap();
    assert_eq!(again.id, "b");
    assert!(gateway::choose_account(&mut pool, &[], &[], &[], &conv, 2000).is_none());
}

#[test]
fn other_answers_are_relayed() {
    let mut pool = Pool::new();
    let mut ban: Vec<String> = Vec::new();
    let a = account("a");
    let all = vec![account("a"), account("b")];
    let fine = Outcome::Status(200);
    let next = gateway::after_reply(&mut pool, &all, &[], &mut ban, &a, &None, fine, 0);
    assert!(matches!(next, gateway::Next::Relay));
    let failed = gateway::after_reply(
        &mut pool,
        &all,
        &[],
        &mut ban,
        &a,
        &None,
        Outcome::Failed("reset".into()),
        0,
    );
    assert!(matches!(failed, gateway::Next::Fail(_)));
}

#[test]
fn the_gateway_hands_a_limit_on_where_no_other_account_is_left() {
    let mut pool = Pool::new();
    let mut ban: Vec<String> = Vec::new();
    let a = account("a");
    let one = vec![account("a")];
    let limit = Outcome::Status(429);
    let next = gateway::after_reply(&mut pool, &one, &[], &mut ban, &a, &None, limit, 0);
    assert!(matches!(next, gateway::Next::Relay));
    assert!(pool.cooling("a", 1));
    assert!(!gateway::another_left(&one, &[], &[], &a));
    assert!(gateway::another_left(&[account("a"), account("b")], &[], &[], &a));
}
