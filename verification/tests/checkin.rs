use traework_assistant::accounts::Account;
use traework_assistant::checkin;
use traework_assistant::checkin::{
    after_claim, after_status, classify, do_checkin, is_transient_busy, issuer_host, parse_credit,
    query_status, CheckinStatus, ClaimStep,
};
use traework_assistant::json::Json;

fn account() -> Account {
    Account {
        id: "id".into(),
        name: "n".into(),
        phone: None,
        region: Some("cn".into()),
        user_id: Some("u".into()),
        token: "tok".into(),
        refresh_token: None,
        host: None,
        expires_at: None,
        refresh_expires_at: None,
        device_id: Some("dev".into()),
        machine_id: None,
        created_at: String::new(),
        enabled: true,
        credit_snapshot: None,
    }
}

fn credit(text: &str) -> Option<i64> {
    parse_credit(&Json::parse(text).unwrap())
}

#[test]
fn a_checkin_asks_the_host_of_the_account() {
    let c = do_checkin(&account());
    assert_eq!(c.host, "https://api.trae.cn");
    assert_eq!(c.status_url, "https://api.trae.cn/trae/api/v2/ug/checkin_credits/status");
    assert_eq!(c.claim_url, "https://api.trae.cn/trae/api/v2/ug/checkin_credits/claim");
    assert_eq!(c.authorization, "Cloud-IDE-JWT tok");
    let names: Vec<&str> = c.headers.iter().map(|(k, _)| k.as_str()).collect();
    assert_eq!(
        names,
        vec!["Content-Type", "Accept", "X-Device-Id", "X-Machine-Id", "X-User-Region", "X-User-Id"]
    );
    assert_eq!(c.headers[2].1, "dev");
    assert_eq!(c.headers[3].1, "u");
    let mut bare = account();
    bare.region = None;
    bare.user_id = Some(String::new());
    assert_eq!(checkin::headers(&bare).1.len(), 4);
    bare.user_id = None;
    assert_eq!(checkin::device_ids(&bare).1, "id");
}

#[test]
fn a_host_gets_a_scheme_and_no_slash() {
    assert_eq!(checkin::normalize_host(" api.trae.ai// "), "https://api.trae.ai");
    assert_eq!(checkin::normalize_host("http://x/"), "http://x");
}

#[test]
fn credits_are_read_from_the_data_first() {
    assert_eq!(credit(r#"{"credits":5,"data":{"credits":7}}"#), Some(7));
    assert_eq!(credit(r#"{"credits":5}"#), Some(5));
    assert_eq!(credit(r#"{"credits":5,"extra_credits":3}"#), Some(8));
    assert_eq!(credit(r#"{"credits":" 12 "}"#), Some(12));
    assert_eq!(credit(r#"{"data":{"today_credit":"-4"}}"#), Some(-4));
    assert_eq!(credit(r#"{"credit":1,"credits":5,"extra_credits":3}"#), Some(1));
    assert_eq!(credit(r#"{"gain_credit":2}"#), Some(2));
    assert_eq!(credit(r#"{"credits":9223372036854775807,"extra_credits":1}"#), Some(i64::MAX));
    assert_eq!(credit(r#"{"credits":1.5}"#), None);
    assert_eq!(credit(r#"[]"#), None);
}

#[test]
fn a_busy_server_is_known() {
    assert!(is_transient_busy(Some(9074), ""));
    assert!(is_transient_busy(None, "Too MANY requests"));
    assert!(is_transient_busy(None, "当前繁忙"));
    assert!(is_transient_busy(Some(1), "error 9074"));
    assert!(!is_transient_busy(Some(9004), "参数错误"));
}

#[test]
fn messages_are_understood() {
    let v = classify(true, Some(0), "ok");
    assert!(v.ok && !v.already && !v.inactive);
    for m in [
        "今日已签到",
        "已领取",
        "already checked-in",
        "already  checkedin",
        "already checked in",
        "alreadyclaimed",
        "daily reward already taken",
    ] {
        let v = classify(false, Some(0), m);
        assert!(v.already && v.ok, "{m}");
    }
    for m in ["already done", "daily\nalready", "claimed already"] {
        assert!(!classify(false, Some(0), m).already, "{m}");
    }
    for m in ["活动未开启", "未开始", "未开放", "暂无签到活动", "活动已经结束", "活动关闭", "活动暂停"] {
        let v = classify(true, Some(0), m);
        assert!(v.inactive && !v.ok && !v.already, "{m}");
    }
    assert!(!classify(true, Some(0), "无\n活动").inactive);
    assert!(!classify(true, Some(1), "已签到").already, "only with a code of zero");
}

#[test]
fn the_state_may_settle_the_checkin() {
    let c = do_checkin(&account());
    let done = after_status(&c, Some(br#"{"code":0,"checked_in":true,"credits":150}"#)).unwrap();
    assert!(done.success && done.already && !done.inactive);
    assert_eq!(done.message, "今日已签到");
    assert_eq!(done.credit, Some(150));
    assert_eq!(done.host.as_deref(), Some("https://api.trae.cn"));
    assert_eq!(done.at, c.at);
    let off = after_status(&c, Some(br#"{"code":0,"enable":false}"#)).unwrap();
    assert!(!off.success && off.inactive);
    assert_eq!(off.message, "签到活动未开启");
    assert!(after_status(&c, Some(br#"{"code":0,"did_checked_in":true}"#)).is_some());
    assert!(after_status(&c, Some(br#"{"code":0}"#)).is_none());
    assert!(after_status(&c, Some(br#"{"code":1,"checked_in":true}"#)).is_none());
    assert!(after_status(&c, Some(b"\xff")).is_none());
    assert!(after_status(&c, None).is_none());
}

#[test]
fn a_claim_succeeds() {
    let c = do_checkin(&account());
    match after_claim(&c, 1, 200, r#"{"code":0,"msg":" done ","data":{"credit":10}}"#) {
        ClaimStep::Done(r) => {
            assert!(r.success && !r.already && !r.inactive);
            assert_eq!(r.message, "done");
            assert_eq!(r.credit, Some(10));
        }
        ClaimStep::Again => panic!("the claim is settled"),
    }
}

#[test]
fn a_busy_server_is_asked_three_times() {
    let c = do_checkin(&account());
    let busy = r#"{"code":9074,"msg":"当前参与用户太多"}"#;
    assert!(matches!(after_claim(&c, 1, 200, busy), ClaimStep::Again));
    assert!(matches!(after_claim(&c, 2, 200, busy), ClaimStep::Again));
    match after_claim(&c, 3, 200, busy) {
        ClaimStep::Done(r) => {
            assert!(!r.success);
            assert_eq!(r.message, "[HTTP 200 code=Some(9074)] 当前参与用户太多");
            assert_eq!(r.host, None);
            assert!(r.transient);
        }
        ClaimStep::Again => panic!("three attempts at most"),
    }
}

#[test]
fn a_refused_claim_tells_what_is_known() {
    let c = do_checkin(&account());
    match after_claim(&c, 1, 500, "") {
        ClaimStep::Done(r) => assert_eq!(r.message, "[HTTP 500 code=None] HTTP 500"),
        ClaimStep::Again => panic!("nothing says that the server is busy"),
    }
    let long = "x".repeat(200);
    match after_claim(&c, 1, 404, &long) {
        ClaimStep::Done(r) => assert_eq!(
            r.message,
            format!("[HTTP 404 code=None] HTTP 404 code=None {}", "x".repeat(160))
        ),
        ClaimStep::Again => panic!("nothing says that the server is busy"),
    }
    let failed = checkin::claim_failed(&c, "timeout");
    assert_eq!(
        failed.message,
        "https://api.trae.cn/trae/api/v2/ug/checkin_credits/claim 请求失败：timeout"
    );
    assert!(!failed.success);
    assert!(!failed.transient);
}

#[test]
fn only_a_busy_server_is_worth_another_round() {
    let mut c = do_checkin(&account());
    match after_claim(&c, 3, 200, r#"{"code":90740,"msg":"refused"}"#) {
        ClaimStep::Done(r) => {
            assert_eq!(r.message, "[HTTP 200 code=Some(90740)] refused");
            assert!(!r.transient);
        }
        ClaimStep::Again => panic!("nothing says that the server is busy"),
    }
    c.claim_url = "https://busy.example/claim".into();
    assert!(!checkin::claim_failed(&c, "timeout").transient);
    match after_claim(&c, 1, 200, r#"{"code":0,"msg":"busy"}"#) {
        ClaimStep::Done(r) => assert!(r.success && !r.transient),
        ClaimStep::Again => panic!("the claim is settled"),
    }
    assert_eq!(c.at.len(), 19);
}

#[test]
fn the_state_is_kept_where_it_tells_success() {
    let v = query_status(Some(br#"{"code":0,"checked_in":true,"message":"hi"}"#));
    let s = CheckinStatus::from_status(v).unwrap();
    assert!(s.checked_in && s.enable);
    assert_eq!(s.message, "hi");
    assert_eq!(s.credits, None);
    assert!(query_status(Some(br#"{"code":3}"#)).is_none());
    assert!(query_status(None).is_none());
    assert!(CheckinStatus::from_status(None).is_none());
    let plain = CheckinStatus::from_status(Json::parse("{}")).unwrap();
    assert_eq!(plain.message, "success");
}

#[test]
fn the_issuer_of_a_token_names_its_host() {
    // {"iss":"https://api.trae.ai/x"}
    assert_eq!(
        issuer_host("h.eyJpc3MiOiJodHRwczovL2FwaS50cmFlLmFpL3gifQ.s").as_deref(),
        Some("https://api.trae.ai")
    );
    // {"iss":"https://other.example//"}
    assert_eq!(
        issuer_host("h.eyJpc3MiOiJodHRwczovL290aGVyLmV4YW1wbGUvLyJ9.s").as_deref(),
        Some("https://other.example")
    );
    assert_eq!(issuer_host("no-parts"), None);
    assert_eq!(issuer_host("a.!!!.b"), None);
    assert_eq!(checkin::host_of_issuer("https://api.trae.cn"), "https://api.trae.cn");
    assert_eq!(checkin::standard_base64(&['-', '_', 'a']), "+/a=");
    assert_eq!(checkin::standard_base64(&['a', 'b', 'c', 'd']), "abcd");
}
