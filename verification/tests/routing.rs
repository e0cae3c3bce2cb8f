use traework_assistant::accounts::{Account, CreditSnapshot};
use traework_assistant::choosing::{choose_begin, choose_finish, Choice};
use traework_assistant::routing::{
    available_candidates, billing_candidates, credits_text, credits_text_with, merge_snapshot, older_than,
    pick_index, short_conv, snapshot_stale, snapshot_stale_at, CreditInfo, Pool, COOLDOWN_TTL,
    STICKY_TTL,
};

fn acct(id: &str) -> Account {
    Account {
        id: id.into(),
        name: id.into(),
        phone: None,
        region: None,
        user_id: None,
        token: "t".into(),
        refresh_token: None,
        host: None,
        expires_at: None,
        refresh_expires_at: None,
        device_id: None,
        machine_id: None,
        created_at: String::new(),
        enabled: true,
        credit_snapshot: None,
    }
}

#[test]
fn proxy_billing_candidates_restricts() {
    let all = vec![acct("a"), acct("b")];
    assert_eq!(billing_candidates(&all, &[]).len(), 2);
    assert_eq!(billing_candidates(&all, &["b".into()]).len(), 1);
    assert_eq!(billing_candidates(&all, &["zz".into()]).len(), 2, "勾选失效退回全部");
}

#[test]
fn available_candidates_skips_cooling_unless_all_cooling() {
    let all = vec![acct("a"), acct("b"), acct("c")];
    let ids = |v: &[Account]| -> Vec<String> { v.iter().map(|a| a.id.clone()).collect() };
    assert_eq!(ids(&available_candidates(&all, |a: &Account| a.id == "x")).len(), 3);
    assert_eq!(
        ids(&available_candidates(&all, |a: &Account| a.id == "b")),
        vec!["a".to_string(), "c".to_string()]
    );
    assert_eq!(ids(&available_candidates(&all, |_: &Account| true)).len(), 3);
}

fn info(expiry_ms: Option<i64>, credits: Option<i64>) -> CreditInfo {
    CreditInfo { expiry_ms, credits, unlimited: false }
}

#[test]
fn routing_prefers_earliest_expiry_then_most_credits() {
    let ids: Vec<String> = ["a", "b", "c", "d"].iter().map(|s| s.to_string()).collect();
    let infos = vec![
        info(Some(2000), Some(100)),
        info(Some(1000), Some(10)),
        info(None, Some(99999)),
        info(Some(500), Some(0)),
    ];
    assert_eq!(pick_index(&ids, &infos), Some(1));

    let ids2: Vec<String> = ["a", "b"].iter().map(|s| s.to_string()).collect();
    let infos2 = vec![info(Some(1000), Some(10)), info(Some(1000), Some(500))];
    assert_eq!(pick_index(&ids2, &infos2), Some(1));
}

#[test]
fn routing_falls_back_to_most_credits_when_expiry_unknown() {
    let ids: Vec<String> = ["a", "b", "c"].iter().map(|s| s.to_string()).collect();
    let infos = vec![info(None, Some(150)), info(None, Some(900)), info(None, Some(400))];
    assert_eq!(pick_index(&ids, &infos), Some(1));

    let ids2: Vec<String> = ["a", "b"].iter().map(|s| s.to_string()).collect();
    let infos2 = vec![info(Some(100), Some(0)), CreditInfo::default()];
    assert_eq!(pick_index(&ids2, &infos2), Some(1));

    let unlimited = CreditInfo { unlimited: true, ..Default::default() };
    let infos_u = vec![info(Some(100), Some(5)), unlimited];
    assert_eq!(pick_index(&ids2, &infos_u), Some(0));

    let infos3 = vec![info(Some(100), Some(0)), info(Some(200), Some(0))];
    assert_eq!(pick_index(&ids2, &infos3), Some(0));
    assert_eq!(pick_index(&[], &[]), None, "没有账号就没有下标");
}

#[test]
fn snapshot_staleness_drives_refetch() {
    assert!(snapshot_stale(None), "没有快照必须重取");
    let fresh = CreditSnapshot::now(Some(150), false, None);
    assert!(!snapshot_stale(Some(&fresh)));
    let old = CreditSnapshot {
        credits: Some(1),
        unlimited: false,
        earliest_expiry_ms: None,
        fetched_at: "2000-01-01 00:00:00".into(),
    };
    assert!(snapshot_stale(Some(&old)), "过期快照必须重取");
    let malformed = CreditSnapshot {
        credits: None,
        unlimited: false,
        earliest_expiry_ms: None,
        fetched_at: "not a time".into(),
    };
    assert!(snapshot_stale(Some(&malformed)), "时间戳无法解析时按过期处理");
}

#[test]
fn a_timestamp_is_read_as_seconds() {
    let snap = Some(CreditSnapshot {
        credits: None,
        unlimited: false,
        earliest_expiry_ms: None,
        fetched_at: "1970-01-02 00:00:00".into(),
    });
    // One day is 86400 seconds; a snapshot is stale after ten minutes.
    assert!(!snapshot_stale_at(&snap, 86400));
    assert!(!snapshot_stale_at(&snap, 86400 + 599));
    assert!(snapshot_stale_at(&snap, 86400 + 601));
    assert!(snapshot_stale_at(&snap, 86400 + 600));
    assert!(!older_than(86400 + 599, 86400));
    assert!(older_than(86400 + 600, 86400));
}

#[test]
fn a_snapshot_without_numbers_keeps_the_known_ones() {
    let known = CreditSnapshot {
        credits: Some(7),
        unlimited: false,
        earliest_expiry_ms: Some(9),
        fetched_at: "2000-01-01 00:00:00".into(),
    };
    let told = CreditSnapshot {
        credits: Some(8),
        unlimited: false,
        earliest_expiry_ms: Some(10),
        fetched_at: "2000-01-02 00:00:00".into(),
    };
    let merged = merge_snapshot(told, &Some(known));
    assert_eq!(merged.credits, Some(8));
    assert_eq!(merged.earliest_expiry_ms, Some(10));
}

#[test]
fn a_cooled_account_warms_up_again() {
    let mut pool = Pool::new();
    assert!(!pool.cooling("a", 5));
    pool.cool_down("a", 5);
    assert!(pool.cooling("a", 5));
    assert!(pool.cooling("a", 5 + COOLDOWN_TTL - 1));
    assert!(!pool.cooling("a", 5 + COOLDOWN_TTL));
}

#[test]
fn a_binding_lasts_while_it_is_used() {
    let mut pool = Pool::new();
    assert_eq!(pool.sticky_hit("c", 0), None);
    pool.sticky_put("c", "a".into(), 0);
    assert_eq!(pool.sticky_hit("c", STICKY_TTL - 1).as_deref(), Some("a"));
    pool.sticky_put("d", "b".into(), 0);
    assert_eq!(pool.sticky_hit("d", STICKY_TTL), None);
    pool.sticky_put("e", "b".into(), 0);
    pool.sticky_remove("e");
    assert_eq!(pool.sticky_hit("e", 1), None);
}

fn with_credits(id: &str, credits: i64) -> Account {
    let mut a = acct(id);
    a.credit_snapshot = Some(CreditSnapshot {
        credits: Some(credits),
        unlimited: false,
        earliest_expiry_ms: None,
        fetched_at: "1970-01-01 00:00:00".into(),
    });
    a
}

#[test]
fn the_account_with_most_credits_is_chosen_and_kept() {
    let mut pool = Pool::new();
    let mut all = vec![with_credits("a", 5), with_credits("b", 9)];
    let conv = Some("c".to_string());
    let choice = choose_begin(&mut pool, &all, &[], &[], &conv, 1000, 10);
    let list = match choice {
        Choice::Fetch(list, fetch) => {
            // Both snapshots are fresh.
            assert_eq!(fetch, vec![false, false]);
            list
        }
        _ => panic!("a choice is open"),
    };
    let chosen = choose_finish(&mut pool, &mut all, &list, vec![None, None], &conv, 1000);
    assert_eq!(chosen.account.id, "b");
    assert!(!chosen.persist);
    match choose_begin(&mut pool, &all, &[], &[], &conv, 2000, 10) {
        Choice::Settled(a) => assert_eq!(a.id, "b"),
        _ => panic!("the conversation is bound"),
    }
}

#[test]
fn banned_accounts_serve_nothing() {
    let mut pool = Pool::new();
    let all = vec![acct("a")];
    let choice = choose_begin(&mut pool, &all, &[], &["a".to_string()], &None, 0, 0);
    assert!(matches!(choice, Choice::Nobody));
}

#[test]
fn only_selected_accounts_are_charged() {
    let mut pool = Pool::new();
    let all = vec![acct("a"), acct("b")];
    match choose_begin(&mut pool, &all, &["b".to_string()], &[], &None, 0, 0) {
        Choice::Fetch(list, fetch) => {
            assert_eq!(list.len(), 1);
            assert_eq!(list[0].id, "b");
            assert_eq!(fetch, vec![true]);
        }
        _ => panic!("one account is left"),
    }
}

#[test]
fn credits_are_shown() {
    let unlimited = CreditInfo { expiry_ms: None, credits: None, unlimited: true };
    assert!(credits_text_with(unlimited, None) != credits_text_with(info(None, Some(3)), None));
    assert!(credits_text_with(info(None, Some(3)), None).contains('3'));
    assert!(credits_text_with(info(Some(1), Some(3)), Some("01-02".into())).contains("01-02"));
}

#[test]
fn the_day_of_expiry_is_shown() {
    // The ninth of September 2001, give or take the time zone.
    let shown = credits_text(info(Some(1_000_000_000_000), Some(3)));
    assert!(shown.contains("09-08") || shown.contains("09-09"), "{shown}");
    assert!(!credits_text(info(None, Some(3))).contains("09-0"));
}

#[test]
fn a_conversation_is_shown_short() {
    assert_eq!(short_conv("abc"), "abc");
    assert!(short_conv("0123456789abcdef0123456789abcdef").chars().count() < 32);
}

#[test]
fn an_expiry_out_of_the_calendar_is_not_shown() {
    let last = 8_210_266_876_799_999i64;
    let first = -8_334_601_228_800_000i64;
    assert!(credits_text(info(Some(last - 172_800_000), Some(3))).contains("到期"));
    assert!(credits_text(info(Some(first + 172_800_000), Some(3))).contains("到期"));
    assert_eq!(credits_text(info(Some(last + 1), Some(3))), "剩 3 积分");
    assert_eq!(credits_text(info(Some(first - 1), Some(3))), "剩 3 积分");
}
