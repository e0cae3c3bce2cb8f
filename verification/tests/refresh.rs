use traework_assistant::accounts::Account;
use traework_assistant::refresh::{
    answered, not_answered, refresh_account, store_account, RefreshStep,
};

fn account(id: &str) -> Account {
    Account {
        id: id.into(),
        name: id.into(),
        phone: None,
        region: None,
        user_id: None,
        token: "old".into(),
        refresh_token: Some("r\"1".into()),
        host: Some("api.trae.ai/".into()),
        expires_at: Some(1),
        refresh_expires_at: None,
        device_id: None,
        machine_id: None,
        created_at: String::new(),
        enabled: true,
        credit_snapshot: None,
    }
}

#[test]
fn a_renewal_asks_the_known_addresses() {
    let f = refresh_account(&account("a")).ok().unwrap();
    assert_eq!(
        f.urls,
        vec![
            "https://api.trae.ai/trae/api/v2/user/refresh_token".to_string(),
            "https://api.trae.ai/trae/api/v1/user/refresh_token".to_string(),
            "https://api.trae.ai/api/v2/user/refresh_token".to_string(),
            "https://api.trae.ai/api/v1/auth/refresh".to_string(),
        ]
    );
    assert_eq!(f.body, r#"{"refreshToken":"r\"1"}"#);
    let mut none = account("a");
    none.refresh_token = None;
    assert_eq!(refresh_account(&none).err().as_deref(), Some("该账号没有 refresh token"));
}

#[test]
fn an_answer_renews_the_token() {
    let mut a = account("a");
    let mut f = refresh_account(&a).ok().unwrap();
    let step = answered(
        &mut f,
        &mut a,
        r#"{"code":0,"data":{"accessToken":"new","refreshToken":"r2","expiresAt":"77"}}"#,
    );
    assert!(matches!(step, RefreshStep::Renewed));
    assert_eq!(a.token, "new");
    assert_eq!(a.refresh_token.as_deref(), Some("r2"));
    assert_eq!(a.expires_at, Some(77));
    assert_eq!(a.id, "a");
}

#[test]
fn what_an_answer_does_not_tell_stays() {
    let mut a = account("a");
    let mut f = refresh_account(&a).ok().unwrap();
    let step = answered(&mut f, &mut a, r#"{"code":0,"data":{"token":"new"}}"#);
    assert!(matches!(step, RefreshStep::Renewed));
    assert_eq!(a.refresh_token.as_deref(), Some("r\"1"));
    assert_eq!(a.expires_at, Some(1));
}

#[test]
fn a_success_without_a_token_ends_the_renewal() {
    let mut a = account("a");
    let mut f = refresh_account(&a).ok().unwrap();
    match answered(&mut f, &mut a, r#"{"code":0,"data":{"token":5}}"#) {
        RefreshStep::Failed(e) => assert_eq!(e, "刷新响应缺少 token"),
        _ => panic!("there is no token"),
    }
    assert_eq!(a.token, "old");
}

#[test]
fn refusals_lead_to_the_next_address_and_the_last_one_counts() {
    let mut a = account("a");
    let mut f = refresh_account(&a).ok().unwrap();
    assert!(matches!(answered(&mut f, &mut a, r#"{"code":1,"msg":"no"}"#), RefreshStep::Next));
    assert!(matches!(not_answered(&mut f, "timeout"), RefreshStep::Next));
    assert!(matches!(answered(&mut f, &mut a, "garbage"), RefreshStep::Next));
    match answered(&mut f, &mut a, r#"{"code":7}"#) {
        RefreshStep::Failed(e) => assert_eq!(e, "code=Some(7)"),
        _ => panic!("no address is left"),
    }
    assert_eq!(a.token, "old");
    let mut g = refresh_account(&a).ok().unwrap();
    g.tried = 3;
    match not_answered(&mut g, "timeout") {
        RefreshStep::Failed(e) => {
            assert_eq!(e, "https://api.trae.ai/api/v1/auth/refresh 请求失败：timeout")
        }
        _ => panic!("no address is left"),
    }
}

#[test]
fn a_renewed_account_is_stored_in_its_place() {
    let mut all = vec![account("a"), account("b")];
    let mut b = account("b");
    b.token = "new".into();
    store_account(&mut all, &b);
    assert_eq!(all[0].token, "old");
    assert_eq!(all[1].token, "new");
    store_account(&mut all, &account("z"));
    assert_eq!(all.len(), 2);
}
