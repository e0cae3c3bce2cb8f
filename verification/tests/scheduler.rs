use traework_assistant::accounts::{Account, Settings};
use traework_assistant::checkin::CheckinResult;
use traework_assistant::scheduler;
use traework_assistant::scheduler::{EndpointAction, MAX_ROUNDS};

fn account(id: &str) -> Account {
    Account {
        id: id.into(),
        name: id.into(),
        phone: None,
        region: None,
        user_id: None,
        token: "t".into(),
        refresh_token: None,
        host: None,
        expires_at: None,
        refresh_expires_at: None,
        device_id: None,
        machine_id: None,
        created_at: String::new(),
        enabled: true,
        credit_snapshot: None,
    }
}

fn outcome(success: bool, already: bool, inactive: bool, message: &str) -> CheckinResult {
    CheckinResult {
        success,
        already,
        inactive,
        message: message.into(),
        credit: None,
        host: None,
        at: String::new(),
        transient: false,
    }
}

fn limited(message: &str) -> CheckinResult {
    let mut r = outcome(false, false, false, message);
    r.transient = true;
    r
}

#[test]
fn the_checkin_is_due_once_a_day() {
    let s = Settings::default();
    let mut last: Option<i32> = None;
    assert!(!scheduler::checkin_due_at(&s, &mut last, 5, "09:59"));
    assert_eq!(last, None);
    assert!(scheduler::checkin_due_at(&s, &mut last, 5, "10:00"));
    assert_eq!(last, Some(5));
    assert!(!scheduler::checkin_due_at(&s, &mut last, 5, "10:00"));
    assert!(scheduler::checkin_due_at(&s, &mut last, 6, "10:00"));
    let mut off = Settings::default();
    off.checkin_enabled = false;
    let mut last: Option<i32> = None;
    assert!(!scheduler::checkin_due_at(&off, &mut last, 7, "10:00"));
    assert_eq!(last, Some(7));
}

#[test]
fn the_clock_is_asked_for_the_day() {
    let mut off = Settings::default();
    off.checkin_enabled = false;
    let mut last: Option<i32> = None;
    assert!(!scheduler::checkin_due(&off, &mut last));
    // The first of January 2000 was day 730120 of the calendar.
    assert!(last.unwrap() > 730_120);
}

#[test]
fn limited_accounts_are_tried_again_in_the_next_round() {
    assert!(scheduler::run_checkin(Vec::new()).is_none());
    let mut rounds = scheduler::run_checkin(vec![account("a"), account("b")]).unwrap();
    let again = scheduler::end_round(
        &mut rounds,
        vec![
            (account("a"), outcome(true, false, false, "ok")),
            (account("b"), limited("[HTTP 200 code=Some(9074)] x")),
        ],
    );
    assert!(again);
    assert_eq!(rounds.round, 1);
    assert_eq!(rounds.pending.len(), 1);
    assert_eq!(rounds.pending[0].id, "b");
    assert_eq!(rounds.done.len(), 1);
    assert_eq!(
        scheduler::round_note(&rounds),
        "第 2 轮补签：1 个账号上一轮被限流（9074），10 分钟后重试"
    );
    for _ in 1..MAX_ROUNDS {
        let seen = vec![(account("b"), limited("busy"))];
        scheduler::end_round(&mut rounds, seen);
    }
    assert_eq!(rounds.round, MAX_ROUNDS);
    assert!(rounds.pending.is_empty());
    assert_eq!(rounds.done.len(), 2);
}

#[test]
fn other_failures_are_not_tried_again() {
    let mut rounds = scheduler::run_checkin(vec![account("a")]).unwrap();
    let seen = vec![(account("a"), outcome(false, false, false, "token expired"))];
    assert!(!scheduler::end_round(&mut rounds, seen));
    assert_eq!(rounds.done.len(), 1);
    // What the message says does not decide.
    let mut rounds = scheduler::run_checkin(vec![account("a")]).unwrap();
    let seen = vec![(account("a"), outcome(false, false, false, "https://busy.example 请求失败"))];
    assert!(!scheduler::end_round(&mut rounds, seen));
}

#[test]
fn outcomes_are_summed_up() {
    let done = vec![
        ("a".to_string(), outcome(true, false, false, "ok")),
        ("b".to_string(), outcome(true, true, false, "今日已签到")),
        ("c".to_string(), outcome(false, false, true, "未开启")),
        ("d".to_string(), outcome(false, false, false, "token expired")),
    ];
    let t = scheduler::tally(&done);
    assert_eq!(t.ok, 1);
    assert_eq!(t.already, 1);
    assert_eq!(t.failed, vec!["d：token expired".to_string()]);
    assert_eq!(scheduler::checkin_note("now", 0, &done[0].1), "[now] 第 1 轮 · ok");
}

#[test]
fn a_summary_is_sent_where_an_address_is_set() {
    let mut s = Settings::default();
    assert_eq!(scheduler::webhook(&s), None);
    s.webhook_url = "  ".into();
    assert_eq!(scheduler::webhook(&s), None);
    s.webhook_url = " https://h ".into();
    assert_eq!(scheduler::webhook(&s).as_deref(), Some("https://h"));
}

#[test]
fn a_repair_needs_an_open_gate_and_a_listening_proxy() {
    let (action, note) = scheduler::repair_target("A", Ok(true), true);
    assert!(action == EndpointAction::Repair && note.is_none());
    assert!(scheduler::repair_target("A", Ok(true), false).0 == EndpointAction::Leave);
    assert!(scheduler::repair_target("A", Ok(false), true).0 == EndpointAction::Uninstall);
    let (action, note) = scheduler::repair_target("A", Err("locked".into()), true);
    assert!(action == EndpointAction::Uninstall);
    let note = note.unwrap();
    assert_eq!(note.event, "patch_gone");
    assert!(note.dedup);
    assert!(note.detail.starts_with("免证书模式：「A」的闸门补丁无法保证（locked）。"));
}

#[test]
fn repairs_come_sooner_where_something_is_missing() {
    let mut s = Settings::default();
    assert!(!scheduler::repair_due(&s, 10, 5));
    s.takeover_enabled = true;
    assert!(scheduler::repair_due(&s, 10, 5));
    assert!(!scheduler::repair_due(&s, 4, 5));
    assert_eq!(scheduler::repair_gap(true), 300);
    assert_eq!(scheduler::repair_gap(false), 20);
    assert!(!scheduler::all_ready(&[]));
    assert!(scheduler::all_ready(&[true, true]));
    assert!(!scheduler::all_ready(&[true, false]));
}

#[test]
fn endpoints_are_restored_first_where_the_proxy_does_not_listen() {
    assert!(scheduler::restores_first(false));
    assert!(!scheduler::restores_first(true));
}
