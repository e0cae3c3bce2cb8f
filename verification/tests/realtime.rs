use traework_assistant::http::parse_request;
use traework_assistant::proxy::WsUpstream;
use traework_assistant::realtime::{
    build_ws_request, head_step, insert_sorted, join_texts, note_ws_handshake, parse_ws_upstream,
    relay_idle, relay_turn, swaps_handshake, ws_react, Got, HeadStep, Turn, WsAction, WsEvent,
    WS_IDLE_MAX,
};
use traework_assistant::rules::Rules;

#[test]
fn ws_request_rewrites_only_the_host_header() {
    let raw = b"GET /custom_model HTTP/1.1\r\nHost: 127.0.0.1:8788\r\nUpgrade: websocket\r\nConnection: Upgrade\r\nAuthorization: Cloud-IDE-JWT abc.def\r\nSec-WebSocket-Key: kk==\r\n\r\n";
    let req = parse_request(raw).unwrap();
    let up = WsUpstream {
        secure: true,
        host: "trae-ws-cn.mchost.guru".into(),
        port: 443,
        path: "/custom_model".into(),
    };
    let head = String::from_utf8(build_ws_request(raw, &req, &up, None)).unwrap();
    assert!(head.starts_with("GET /custom_model HTTP/1.1\r\n"), "{head}");
    assert!(head.contains("Host: trae-ws-cn.mchost.guru\r\n"), "{head}");
    assert!(!head.contains("127.0.0.1"), "不该把本机 Host 转发给上游：{head}");
    assert!(head.contains("Authorization: Cloud-IDE-JWT abc.def\r\n"), "{head}");
    assert!(head.contains("Sec-WebSocket-Key: kk==\r\n"), "{head}");
    assert!(head.contains("Upgrade: websocket\r\n"), "{head}");
    let up2 = WsUpstream { port: 8443, ..up };
    let head2 = String::from_utf8(build_ws_request(raw, &req, &up2, None)).unwrap();
    assert!(head2.contains("Host: trae-ws-cn.mchost.guru:8443\r\n"), "{head2}");
}

#[test]
fn swapped_credentials_replace_those_of_the_handshake() {
    let raw = b"GET /w HTTP/1.1\r\nHost: x\r\nAuthorization: Cloud-IDE-JWT own\r\n\r\n";
    let req = parse_request(raw).unwrap();
    let up = WsUpstream { secure: false, host: "h".into(), port: 80, path: "/w".into() };
    let head = String::from_utf8(build_ws_request(raw, &req, &up, Some("Cloud-IDE-JWT p"))).unwrap();
    assert!(head.contains("Authorization: Cloud-IDE-JWT p\r\n"), "{head}");
    assert!(!head.contains("own"), "{head}");
    assert!(!swaps_handshake(&Rules::default()));
    assert!(swaps_handshake(&Rules { swap_ws: true, ..Rules::default() }));
}

#[test]
fn the_upstream_of_the_channel_is_read_from_its_address() {
    let up = parse_ws_upstream("wss://ws.example/custom_model?x=1").unwrap();
    assert!(up.secure);
    assert_eq!(up.host, "ws.example");
    assert_eq!(up.port, 443);
    assert_eq!(up.path, "/custom_model");
    let plain = parse_ws_upstream("ws://127.0.0.1:8789").unwrap();
    assert!(!plain.secure);
    assert_eq!(plain.port, 8789);
    assert_eq!(plain.path, "");
    assert!(parse_ws_upstream("ws.example").is_none());
    assert!(parse_ws_upstream("ws://:1/").is_none());
    assert!(parse_ws_upstream("ws://h:99999/").is_none());
}

#[test]
fn a_head_is_read_until_its_end() {
    assert_eq!(head_step(b"HTTP/1.1 101 x\r\n") == HeadStep::More, true);
    assert_eq!(head_step(b"HTTP/1.1 101 x\r\n\r\n") == HeadStep::Done, true);
}

#[test]
fn a_handshake_ends_in_a_tunnel_or_an_answer() {
    let refused = ws_react(WsEvent::OpenFailed("dns".into()), "/w");
    assert!(matches!(refused, WsAction::Refuse(_)));
    let dropped = ws_react(WsEvent::WriteFailed("reset".into()), "/w");
    assert!(matches!(dropped, WsAction::Refuse(_) | WsAction::Drop(_)));
    let up = ws_react(WsEvent::Answered(b"HTTP/1.1 101 Switching\r\n\r\n".to_vec()), "/w");
    assert!(matches!(up, WsAction::Tunnel(_)));
    let denied = ws_react(WsEvent::Answered(b"HTTP/1.1 403 Forbidden\r\n\r\n".to_vec()), "/w");
    assert!(matches!(denied, WsAction::Rest(_)));
}

#[test]
fn bytes_are_relayed_until_one_side_closes() {
    assert!(relay_turn(Got::Bytes) == Turn::Forward);
    assert!(relay_turn(Got::Nothing) == Turn::Skip);
    assert!(relay_turn(Got::Closed) == Turn::Stop);
    assert!(relay_turn(Got::Broken) == Turn::Stop);
    assert_eq!(relay_idle(true, 0, 77), Some(77));
    assert_eq!(relay_idle(false, 5, 6), Some(5));
    assert_eq!(relay_idle(false, 0, WS_IDLE_MAX + 1), None);
}

#[test]
fn the_first_handshake_is_noted() {
    let raw = b"GET /w HTTP/1.1\r\nB: 1\r\nA: 2\r\n\r\n";
    let req = parse_request(raw).unwrap();
    let mut done = false;
    assert!(note_ws_handshake(&req, &mut done).is_some());
    assert!(done);
    assert!(note_ws_handshake(&req, &mut done).is_none());
}

#[test]
fn names_are_kept_sorted_and_joined() {
    let mut v: Vec<String> = Vec::new();
    insert_sorted(&mut v, "b".into());
    insert_sorted(&mut v, "a".into());
    insert_sorted(&mut v, "b".into());
    assert_eq!(v, vec!["a".to_string(), "b".to_string()]);
    assert_eq!(join_texts(&v, ", "), "a, b");
}
