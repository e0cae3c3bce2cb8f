use traework_assistant::session::{
    body_declares_empty_session, conversation_key, json_string_value, session_id_from_body,
    session_id_from_path,
    session_id_from_query,
};

#[test]
fn conversation_key_reads_path_query_and_json_body() {
    assert_eq!(
        conversation_key("/api/remote/v1/chat_sessions/c1/messages", b"").as_deref(),
        Some("c1")
    );
    assert_eq!(
        conversation_key("/api/agent/v3/x?session_id=c2&page=1", b"").as_deref(),
        Some("c2")
    );
    assert_eq!(
        conversation_key("/api/agent/v3/workflow/start", br#"{"session_id":"c3","query":"hi"}"#)
            .as_deref(),
        Some("c3")
    );
    assert_eq!(
        conversation_key("/api/agent/v3/create_agent_task", br#"{"sessionId": "c4"}"#).as_deref(),
        Some("c4")
    );
}

#[test]
fn conversation_key_does_not_guess() {
    assert_eq!(conversation_key("/api/agent/v3/x", br#"{"session_id":123}"#), None);
    assert_eq!(conversation_key("/api/agent/v3/x", br#"{"session_id":{"a":1}}"#), None);
    assert_eq!(conversation_key("/api/agent/v3/x", br#"{"session_id":""}"#), None);
    assert_eq!(conversation_key("/api/agent/v3/x", br#"{"session_id":null}"#), None);
    assert_eq!(conversation_key("/api/remote/v1/chat_sessions?mode=work", b""), None);
    assert_eq!(conversation_key("/api/agent/v3/x?session_id=&a=1", b""), None);
    assert_eq!(conversation_key("/healthz", b""), None);
}

#[test]
fn empty_session_id_means_new_session_not_unbound() {
    assert!(body_declares_empty_session(br#"{"session_id":"","query":"hi"}"#));
    assert!(body_declares_empty_session(br#"{"sessionId": ""}"#));
    assert!(body_declares_empty_session(br#"{"chat_session_id":""}"#));
    assert!(!body_declares_empty_session(br#"{"query":"hi"}"#));
    assert!(!body_declares_empty_session(br#"{"session_id":null}"#));
    assert!(!body_declares_empty_session(br#"{"session_id":"abc"}"#));
    assert!(!body_declares_empty_session(br#"{"session_id":123}"#));
    assert_eq!(
        conversation_key("/api/agent/v3/workflow/start", br#"{"session_id":"c9"}"#).as_deref(),
        Some("c9")
    );
}

#[test]
fn extracts_session_id_from_path() {
    assert_eq!(
        session_id_from_path("/api/remote/v1/chat_sessions/abc123/messages").as_deref(),
        Some("abc123")
    );
    assert_eq!(
        session_id_from_path("/api/remote/v1/chat_sessions/abc123/events?x=1").as_deref(),
        Some("abc123")
    );
    assert_eq!(session_id_from_path("/api/remote/v1/models"), None);
}

#[test]
fn the_path_decides_before_query_and_body() {
    assert_eq!(
        conversation_key(
            "/api/remote/v1/chat_sessions/p/messages?session_id=q",
            br#"{"session_id":"b"}"#
        )
        .as_deref(),
        Some("p")
    );
    assert_eq!(
        conversation_key("/api/x?session_id=q", br#"{"session_id":"b"}"#).as_deref(),
        Some("q")
    );
    assert_eq!(session_id_from_query("/api/x?a=1"), None);
    assert_eq!(session_id_from_body(b"{}"), None);
}

#[test]
fn a_session_id_may_hold_text_beyond_ascii() {
    assert_eq!(
        session_id_from_body("{\"session_id\":\"会话\"}".as_bytes()).as_deref(),
        Some("会话")
    );
}

#[test]
fn a_text_without_its_closing_quote_is_no_text() {
    assert_eq!(json_string_value(br#": "c1""#).as_deref(), Some("c1"));
    assert_eq!(json_string_value(br#": "c1"#), None);
    assert_eq!(session_id_from_body(br#"{"session_id":"c1"#), None);
}
