use traework_assistant::journal;
use traework_assistant::journal::{append, append_dedup, JournalEvent, MAX_EVENTS};

#[test]
fn appends_newest_first_and_roundtrips() {
    let mut events: Vec<JournalEvent> = Vec::new();
    append(&mut events, "install", "开启接管");
    append(&mut events, "route_start", "会话 abc 开始使用账号「A」");
    assert_eq!(events.len(), 2);
    assert_eq!(events[0].event, "route_start", "最新事件必须排在最前");
    assert_eq!(events[0].detail, "会话 abc 开始使用账号「A」");
    assert_eq!(events[1].event, "install");
    assert!(events[0].at_ms > 0);
}

#[test]
fn caps_length_and_keeps_latest() {
    let mut events: Vec<JournalEvent> = Vec::new();
    for i in 0..(MAX_EVENTS + 20) {
        append(&mut events, "failover", &format!("e{i}"));
    }
    assert_eq!(events.len(), MAX_EVENTS, "不得超过上限");
    assert_eq!(events[0].detail, format!("e{}", MAX_EVENTS + 19), "必须保留最新的");
}

#[test]
fn dedup_skips_consecutive_duplicates_only() {
    let mut events: Vec<JournalEvent> = Vec::new();
    append_dedup(&mut events, "proxy_error", "账号池为空");
    append_dedup(&mut events, "proxy_error", "账号池为空");
    append_dedup(&mut events, "proxy_error", "账号池为空");
    assert_eq!(events.len(), 1, "连续重复必须被抑制");
    append(&mut events, "route_start", "会话 a 开始使用账号「A」");
    append_dedup(&mut events, "proxy_error", "账号池为空");
    assert_eq!(events.len(), 3);
    append(&mut events, "install", "x");
    append(&mut events, "install", "x");
    assert_eq!(events.len(), 5);
}

#[test]
fn lines_come_back_and_blank_ones_are_left_out() {
    let lines = vec!["{\"a\":1}".to_string(), "{\"b\":2}".to_string()];
    let file = journal::journal_text(&lines);
    assert_eq!(file, "{\"a\":1}\n{\"b\":2}\n");
    assert_eq!(journal::journal_lines(&file), lines);
    assert_eq!(journal::journal_lines("\n  \nx\n"), vec!["x".to_string()]);
}

#[test]
fn the_journal_has_its_place() {
    assert_eq!(journal::journal_path("/data", false), "/data/takeover-journal.jsonl");
}

#[test]
fn a_time_is_noted_in_the_usual_form() {
    let e = journal::new_event("install", "x");
    assert_eq!(e.at.len(), "2000-01-01 00:00:00".len());
    assert_eq!(e.at.as_bytes()[4], b'-');
    assert_eq!(e.at.as_bytes()[10], b' ');
}
