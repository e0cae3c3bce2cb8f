use traework_assistant::accounts;
use traework_assistant::accounts::{
    contains_equivalent, import_account, migrate_settings, new_account, Account, Settings,
    TraeLocalAccount,
};
use traework_assistant::json::Json;

fn login(phone: Option<&str>, token: &str) -> TraeLocalAccount {
    TraeLocalAccount {
        nickname: None,
        phone: phone.map(|p| p.to_string()),
        region: None,
        user_id: Some("u".into()),
        token: token.into(),
        refresh_token: None,
        host: None,
        expires_at: Some(7),
        refresh_expires_at: None,
        device_id: None,
        machine_id: None,
    }
}

fn stored(phone: Option<&str>, token: &str) -> Account {
    import_account(login(phone, token), "id".into(), "now".into())
}

#[test]
fn migrates_legacy_gateway_settings() {
    let legacy = r#"{
        "checkin_enabled": true,
        "checkin_time": "09:30",
        "gateway_enabled": false,
        "gateway_port": 9999,
        "intercept_enabled": true,
        "injection_enabled": true,
        "webhook_url": "https://example.invalid/hook",
        "billing_account_ids": []
    }"#;
    let mut parsed = Settings::default();
    parsed.checkin_time = "09:30".into();
    parsed.webhook_url = "https://example.invalid/hook".into();
    let s = migrate_settings(parsed, &Json::parse(legacy).unwrap());
    assert!(s.takeover_enabled, "旧 intercept_enabled=true 应迁移为接管开启");
    assert_eq!(s.takeover_port, 9999, "旧 gateway_port 应被沿用");
    assert_eq!(s.checkin_time, "09:30", "其余设置不得丢失");
    assert_eq!(s.webhook_url, "https://example.invalid/hook");
}

#[test]
fn defaults_when_settings_absent() {
    let s = Settings::default();
    assert!(!s.takeover_enabled);
    assert_eq!(s.takeover_port, 8788);
    assert!(s.checkin_enabled);
}

#[test]
fn new_settings_are_not_migrated() {
    let mut parsed = Settings::default();
    parsed.takeover_port = 9000;
    let raw = Json::parse(r#"{"takeover_enabled":false,"takeover_port":9000}"#).unwrap();
    let s = migrate_settings(parsed, &raw);
    assert!(!s.takeover_enabled);
    assert_eq!(s.takeover_port, 9000);
}

#[test]
fn a_person_is_known_by_phone_or_token() {
    let list = vec![stored(Some("1"), "a"), stored(None, "b")];
    assert!(contains_equivalent(&list, &stored(Some("1"), "z")));
    assert!(!contains_equivalent(&list, &stored(Some("2"), "z")));
    assert!(contains_equivalent(&list, &stored(Some("2"), "b")));
    assert!(contains_equivalent(&list, &stored(None, "a")));
}

#[test]
fn an_imported_account_is_named_after_its_login() {
    let a = stored(Some("138"), "t");
    assert_eq!(a.name, "138");
    assert_eq!(a.expires_at, Some(7));
    assert!(a.enabled);
    assert_eq!(stored(None, "t").name, "未命名账号");
    let x = new_account(login(None, "t"));
    let y = new_account(login(None, "t"));
    assert_ne!(x.id, y.id);
    assert_eq!(x.id.len(), 36);
}

#[test]
fn files_have_their_names() {
    assert_eq!(accounts::accounts_path(), "accounts.json");
    assert_eq!(accounts::settings_path(), "settings.json");
}
