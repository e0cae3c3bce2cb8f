use traework_assistant::accounts;
use traework_assistant::accounts::{Account, Settings, TraeLocalAccount};
use traework_assistant::commands;
use traework_assistant::commands::{
    enable_endpoint, takeover_disable, DisableStage, EnableStage, Usage, Waiting,
};
use traework_assistant::endpoint;
use traework_assistant::endpoint::{EndpointProbe, EndpointStatus};
use traework_assistant::json::Json;
use traework_assistant::patch;
use traework_assistant::patch::{MainJs, PatchStatus};
use traework_assistant::proxy;
use traework_assistant::proxy::ProxyStatus;
use traework_assistant::rules::Rules;

fn account(id: &str, phone: Option<&str>, token: &str) -> Account {
    Account {
        id: id.into(),
        name: id.into(),
        phone: phone.map(|p| p.to_string()),
        region: None,
        user_id: None,
        token: token.into(),
        refresh_token: None,
        host: None,
        expires_at: None,
        refresh_expires_at: None,
        device_id: None,
        machine_id: None,
        created_at: String::new(),
        enabled: true,
        credit_snapshot: None,
    }
}

fn patch_state(patched: bool) -> PatchStatus {
    let mut p = patch::status(&MainJs::NoApp);
    p.patched = patched;
    p.message = "patch".into();
    p
}

fn endpoint_state(installed: bool, ours: bool, writable: bool) -> EndpointStatus {
    let probe = EndpointProbe {
        app_dir: Some("/app".into()),
        installed,
        content: None,
        writable,
        product: None,
        lease: None,
    };
    let mut ep = endpoint::status(&probe, "http://127.0.0.1:8788", 0);
    ep.ours = ours;
    ep.message = "endpoint".into();
    ep
}

fn words(enabled: bool, ep: EndpointStatus, px: ProxyStatus, patched: bool) -> String {
    let mut s = Settings::default();
    s.takeover_enabled = enabled;
    commands::build_status(&s, ep, px, patch_state(patched), Rules::default(), false).message
}

#[test]
fn nobody_is_imported_twice() {
    let list = vec![account("1", Some("p"), "a")];
    let more = vec![account("2", Some("p"), "b"), account("3", Some("q"), "c"), account("4", Some("q"), "d")];
    let out = commands::import_accounts(list, more);
    let ids: Vec<&str> = out.iter().map(|a| a.id.as_str()).collect();
    assert_eq!(ids, vec!["1", "3"]);
}

#[test]
fn accounts_are_removed_and_found_by_id() {
    let list = vec![account("1", None, "a"), account("2", None, "b")];
    let kept = commands::remove_account(&list, "1");
    assert_eq!(kept.len(), 1);
    assert_eq!(kept[0].id, "2");
    assert_eq!(commands::find_account(&list, "2").ok().unwrap().token, "b");
    assert_eq!(commands::find_account(&list, "9").err().as_deref(), Some("账号不存在"));
}

#[test]
fn local_logins_of_unknown_persons_are_offered() {
    let login = |phone: Option<&str>, token: &str| TraeLocalAccount {
        nickname: Some("n".into()),
        phone: phone.map(|p| p.to_string()),
        region: None,
        user_id: None,
        token: token.into(),
        refresh_token: None,
        host: None,
        expires_at: None,
        refresh_expires_at: None,
        device_id: None,
        machine_id: None,
    };
    let existing = vec![account("1", Some("p"), "a")];
    let found = commands::discover_local(
        &existing,
        vec![login(Some("p"), "x"), login(Some("q"), "y"), login(None, "a")],
    );
    assert_eq!(found.len(), 1);
    assert_eq!(found[0].token, "y");
    assert_eq!(found[0].name, "n");
}

#[test]
fn known_credits_stay_where_nothing_is_told() {
    let mut a = account("1", None, "a");
    assert!(!commands::note_usage(&mut a, None));
    assert!(a.credit_snapshot.is_none());
    let told = || Some(Usage { remaining: Some(5), unlimited: false, earliest_expiry_ms: None });
    assert!(commands::note_usage(&mut a, told()));
    let when = a.credit_snapshot.as_ref().unwrap().fetched_at.clone();
    assert!(!commands::note_usage(&mut a, told()));
    assert_eq!(a.credit_snapshot.as_ref().unwrap().fetched_at, when);
    let st = commands::checkin_status(&a, Json::parse(r#"{"checked_in":true,"message":"m"}"#));
    assert!(st.checked_in);
    assert_eq!(st.message, "m");
    assert_eq!(st.credits, Some(5));
    let none = commands::checkin_status(&account("2", None, "b"), None);
    assert!(!none.checked_in && none.credits.is_none());
    assert_eq!(none.message, "");
}

#[test]
fn the_state_says_what_stands_in_the_way() {
    let off = ProxyStatus::default;
    assert_eq!(words(false, endpoint_state(false, false, true), off(), false), "patch");
    assert_eq!(words(false, endpoint_state(false, false, false), off(), true), "endpoint");
    assert_eq!(words(true, endpoint_state(true, false, true), off(), true), "endpoint");
    assert_eq!(
        words(true, endpoint_state(true, true, true), off(), true),
        "已开启接管，但本地反代未在监听——请检查端口是否被占用。"
    );
    assert_eq!(
        words(true, endpoint_state(false, false, true), proxy::listening(8788), true),
        "本地反代已就绪，但 TraeWork 的端点还没指过来（TraeWork 升级后会丢失）。重新开启一次开关即可。"
    );
    assert_eq!(
        words(true, endpoint_state(true, true, true), proxy::listening(8788), true),
        "接管已生效：端点走明文回环，不需要任何证书。"
    );
    assert_eq!(words(false, endpoint_state(false, false, true), off(), true), "endpoint");
}

#[test]
fn a_port_in_use_is_told() {
    let idle = ProxyStatus::default();
    assert!(commands::ensure_port_free(&idle, 8788, true, "").is_ok());
    assert!(commands::ensure_port_free(&proxy::listening(8788), 8788, false, "").is_ok());
    assert_eq!(
        commands::ensure_port_free(&idle, 8788, false, "被 x 占用"),
        Err("端口 8788 被 x 占用。改好端口再开接管即可。".to_string())
    );
}

#[test]
fn the_takeover_is_switched_on_step_by_step() {
    let mut e = enable_endpoint(&Settings::default());
    assert!(e.rules_written(Ok(())).is_none());
    assert!(e.patched(Ok(patch_state(true))).is_none());
    e.preflighted(Ok(()));
    e.port_checked(Ok(()));
    assert!(matches!(e.stage, EnableStage::SwitchOn));
    e.switched_on(Ok(()));
    e.proxy_awaited(true, "");
    let note = e.installed(Ok(true)).unwrap();
    assert_eq!(note.event, "restart_trae");
    assert!(matches!(e.stage, EnableStage::Done));
    assert!(e.on);
}

#[test]
fn a_closed_gate_leaves_everything_as_it_was() {
    let mut e = enable_endpoint(&Settings::default());
    assert_eq!(e.rules_written(Err("full".into())).unwrap().detail, "规则文件落地失败：full");
    assert_eq!(e.patched(Err("old".into())).unwrap().detail, "打免证书补丁失败：old");
    assert!(matches!(&e.stage, EnableStage::Failed(w) if w == "old"));
    assert!(!e.on);
    let mut e = enable_endpoint(&Settings::default());
    e.rules_written(Ok(()));
    assert!(e.patched(Ok(patch_state(false))).is_none());
    assert!(matches!(&e.stage, EnableStage::Failed(w) if w == "patch"));
}

fn up_to_the_proxy() -> commands::Enable {
    let mut e = enable_endpoint(&Settings::default());
    e.rules_written(Ok(()));
    e.patched(Ok(patch_state(true)));
    e.preflighted(Ok(()));
    e.port_checked(Ok(()));
    e.switched_on(Ok(()));
    e
}

#[test]
fn a_proxy_that_does_not_listen_takes_the_switch_back() {
    let mut e = up_to_the_proxy();
    e.proxy_awaited(false, "busy");
    assert!(matches!(e.stage, EnableStage::UndoProxy(_)));
    let note = e.proxy_undone(Ok(())).unwrap();
    assert_eq!(
        note.detail,
        "本地代理未能在 127.0.0.1:8788 监听（busy），已回滚，TraeWork 未被改动"
    );
    assert!(matches!(&e.stage, EnableStage::Failed(w)
        if w == "本地代理未能在 127.0.0.1:8788 监听（busy），已回滚，未改动 TraeWork。"));
    assert!(!e.on);
    let mut e = up_to_the_proxy();
    e.proxy_awaited(false, "");
    assert!(e.proxy_undone(Err("disk".into())).is_none());
    assert!(e.on && e.stuck);
}

#[test]
fn a_failed_change_takes_the_switch_back() {
    let mut e = up_to_the_proxy();
    e.proxy_awaited(true, "");
    assert!(e.installed(Err("locked".into())).is_none());
    e.install_undone(true);
    assert!(!e.on);
    assert!(matches!(&e.stage, EnableStage::Failed(w) if w == "locked"));
}

#[test]
fn a_switch_that_is_on_is_not_stored_again() {
    let mut s = Settings::default();
    s.takeover_enabled = true;
    let mut e = enable_endpoint(&s);
    e.rules_written(Ok(()));
    e.patched(Ok(patch_state(true)));
    e.preflighted(Ok(()));
    e.port_checked(Ok(()));
    assert!(matches!(e.stage, EnableStage::Proxy));
    let mut f = enable_endpoint(&s);
    f.rules_written(Ok(()));
    f.patched(Ok(patch_state(true)));
    f.preflighted(Err("bad".into()));
    assert!(matches!(&f.stage, EnableStage::Failed(w) if w == "bad"));
}

#[test]
fn the_takeover_is_switched_off_endpoint_first() {
    let mut d = takeover_disable();
    assert!(d.legacy_cleared(None).is_none());
    d.quit(true, true);
    assert!(matches!(d.stage, DisableStage::Endpoint));
    assert!(d.restart);
    d.uninstalled(Ok(true));
    let note = d.reverted(Err("locked".into())).unwrap();
    assert_eq!(note.event, "patch_revert");
    assert_eq!(d.switched_off(Ok(())).unwrap().event, "restart_trae");
    assert!(matches!(d.stage, DisableStage::Done));
}

#[test]
fn switching_off_stops_where_traework_stays() {
    let mut d = takeover_disable();
    assert_eq!(
        d.legacy_cleared(Some(Err("x".into()))).unwrap().detail,
        "清理 TraeWork 遗留代理设置失败：x"
    );
    d.quit(true, false);
    assert!(matches!(d.stage, DisableStage::Failed(_)));
    let mut d = takeover_disable();
    assert_eq!(d.legacy_cleared(Some(Ok("cleared".into()))).unwrap().detail, "cleared");
    d.quit(false, false);
    d.uninstalled(Err("foreign".into()));
    assert!(matches!(&d.stage, DisableStage::Failed(w) if w == "foreign"));
    let mut d = takeover_disable();
    d.legacy_cleared(None);
    d.quit(false, false);
    d.uninstalled(Ok(false));
    assert!(d.reverted(Ok(true)).is_none());
    assert!(d.switched_off(Err("disk".into())).is_none());
    assert!(matches!(&d.stage, DisableStage::Failed(w) if w == "disk"));
}

#[test]
fn updates_go_past_the_proxy() {
    let hosts = "github.com,.github.com,githubusercontent.com,.githubusercontent.com";
    assert_eq!(commands::no_proxy(None), hosts);
    assert_eq!(commands::no_proxy(Some("")), hosts);
    assert_eq!(commands::no_proxy(Some("a.example")), format!("a.example, {hosts}"));
    let mut s = Settings::default();
    s.takeover_enabled = true;
    assert!(commands::keeps_override(&s, &proxy::listening(8788)));
    assert!(!commands::keeps_override(&s, &ProxyStatus::default()));
}

#[test]
fn an_imported_account_gets_what_it_lacks() {
    let mut bare = account("", Some("q"), "c");
    bare.created_at = String::new();
    let mut whole = account("9", Some("r"), "d");
    whole.created_at = "2026-01-02 03:04:05".into();
    let out = commands::import_accounts(Vec::new(), vec![bare, whole]);
    assert_eq!(out.len(), 2);
    assert_eq!(out[0].id.len(), 36);
    assert_eq!(out[0].id.matches('-').count(), 4);
    assert_eq!(out[0].created_at.len(), 19);
    assert_eq!(out[0].token, "c");
    assert_eq!(out[1].id, "9");
    assert_eq!(out[1].created_at, "2026-01-02 03:04:05");
    let filled = accounts::fill_in(account("", None, "t"), "i".into(), "now".into());
    assert_eq!(filled.id, "i");
}

#[test]
fn the_proxy_is_waited_for_thirty_times() {
    let up = proxy::listening(8788);
    let down = ProxyStatus::default();
    assert!(commands::proxy_wait(&up, 8788, 0) == Waiting::Ready);
    assert!(commands::proxy_wait(&up, 8788, 29) == Waiting::Ready);
    assert!(commands::proxy_wait(&up, 8788, 30) == Waiting::Late);
    assert!(commands::proxy_wait(&up, 8789, 0) == Waiting::Wait);
    assert!(commands::proxy_wait(&down, 8788, 29) == Waiting::Wait);
    assert!(commands::proxy_wait(&down, 8788, 30) == Waiting::Late);
}

#[test]
fn a_renewal_is_logged() {
    assert_eq!(commands::renewal_log("已续签"), "续签：已续签");
}
