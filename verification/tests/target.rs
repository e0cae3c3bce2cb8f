use traework_assistant::target;
use traework_assistant::target::{
    app_dir_of, id_of, is_selected, is_trae_app, AppTarget, Candidate, Platform, Restart,
    RestartAction,
};

#[test]
fn app_dir_layout_is_the_usual_one() {
    let d = app_dir_of("/Applications/X.app", Platform::MacOs);
    assert!(d.ends_with("app"), "{d}");
    assert!(d.contains("Resources"), "{d}");
    assert_eq!(app_dir_of("C:\\X", Platform::Windows), "C:\\X\\resources\\app");
    assert_eq!(app_dir_of("C:/X", Platform::Windows), "C:/X\\resources\\app");
    assert_eq!(app_dir_of("data", Platform::Windows), "data\\resources\\app");
    assert_eq!(app_dir_of("C:x", Platform::MacOs), "C:x/Contents/Resources/app");
}

#[test]
fn only_builds_with_boot_config_are_targets() {
    assert!(is_trae_app(Some(
        r#"{"bootConfig":{"remote":{"trae":{"normal":"https://a"}}}}"#
    )));
    assert!(
        !is_trae_app(Some(r#"{"nameShort":"Kiro","version":"1.0"}"#)),
        "没有 bootConfig 的不是目标（本机 Kiro.app 就是反例）"
    );
    assert!(!is_trae_app(Some("{ 这不是 JSON")), "读不懂就不认");
    assert!(!is_trae_app(None), "不存在 = 不是");
}

#[test]
fn boot_config_must_be_an_object() {
    assert!(!is_trae_app(Some(r#"{"bootConfig":"nope"}"#)));
}

#[test]
fn id_drops_the_app_suffix() {
    let mac = Platform::MacOs;
    assert_eq!(id_of("/Applications/Trae CN.app", mac).as_deref(), Some("Trae CN"));
    assert_eq!(id_of("/Applications/A.app", mac).as_deref(), Some("A"));
    assert_eq!(id_of("/Applications/.app", mac), None);
}

#[test]
fn empty_selection_means_everything() {
    assert!(is_selected(&[], "任意"));
    assert!(is_selected(&["Trae CN".into()], "Trae CN"));
    assert!(!is_selected(&["Trae CN".into()], "TRAE SOLO CN"));
}

fn candidate(bundle: &str) -> Candidate {
    Candidate { bundle: bundle.into(), product: Some(r#"{"bootConfig":{}}"#.into()) }
}

#[test]
fn discovery_order_is_stable() {
    let found =
        vec![candidate("/Applications/Trae CN.app"), candidate("/Applications/TRAE SOLO CN.app")];
    let v = target::discover(&found, Platform::MacOs);
    assert_eq!(v[0].id, "TRAE SOLO CN", "大写先于小写 ⇒ SOLO 在 Trae CN 之前");
    assert_eq!(v[1].id, "Trae CN");
}

#[test]
fn an_id_is_found_once() {
    let found = vec![candidate("/Applications/A.app"), candidate("/Users/u/Applications/A.app")];
    let v = target::discover(&found, Platform::MacOs);
    assert_eq!(v.len(), 1);
    let other = vec![Candidate { bundle: "/Applications/B.app".into(), product: None }];
    assert!(target::discover(&other, Platform::MacOs).is_empty());
}

fn app(id: &str) -> AppTarget {
    AppTarget {
        id: id.into(),
        bundle: format!("/{id}.app"),
        app_dir: format!("/{id}.app/Contents/Resources/app"),
    }
}

#[test]
fn a_selection_takes_what_is_there_and_tells_what_is_missing() {
    let all = vec![app("A"), app("B")];
    assert_eq!(target::select(&all, &[]).len(), 2);
    let one = target::select(&all, &["B".into(), "Z".into()]);
    assert_eq!(one.len(), 1);
    assert_eq!(one[0].id, "B");
    assert_eq!(target::missing(&all, &["B".into(), "Z".into()]), vec!["Z".to_string()]);
    assert_eq!(all[0].product_path(false), "/A.app/Contents/Resources/app/product.json");
    assert_eq!(all[0].main_js_path(false), "/A.app/Contents/Resources/app/out/main.js");
    assert!(target::default_target(&all).is_some());
    assert!(target::default_target(&[]).is_none());
}

#[test]
fn a_process_is_found_in_the_listing_whatever_its_case() {
    assert_eq!(target::process_image_name("Trae CN"), "Trae CN.exe");
    assert!(target::listed_running(b"\"trae cn.exe\",\"1\"", "Trae CN"));
    assert!(!target::listed_running(b"\"other.exe\",\"1\"", "Trae CN"));
    assert!(target::listed_running(b"\"x.exe\",\"1\"\r\n\"Trae CN.exe\"\r\n", "Trae CN"));
    assert!(!target::listed_running(b"\"Trae CN.exe\"\r", "Trae CN"));
}

#[test]
fn all_applications_quit_before_the_change() {
    let targets = vec![app("A"), app("B")];
    let mut r = Restart::new();
    assert!(matches!(r.action(2), RestartAction::Stop(0)));
    assert!(r.after_quit(&targets, true).is_ok());
    assert!(matches!(r.action(2), RestartAction::Stop(1)));
    r.not_running(2);
    assert!(matches!(r.action(2), RestartAction::Operate));
    assert_eq!(r.stopped, vec![0]);
}

#[test]
fn one_that_does_not_quit_stops_the_change() {
    let targets = vec![app("A"), app("B")];
    let mut r = Restart::new();
    assert!(r.after_quit(&targets, true).is_ok());
    let (restart, _) = r.after_quit(&targets, false).unwrap_err();
    assert_eq!(restart, vec![0]);
}

#[test]
fn applications_are_looked_for_in_the_usual_places() {
    assert_eq!(
        target::roots(Platform::MacOs, Some("/Users/u"), &[], &[]),
        vec!["/Applications".to_string(), "/Users/u/Applications".to_string()]
    );
    assert_eq!(
        target::roots(Platform::Windows, None, &["L".into()], &["P".into()]),
        vec!["L\\Programs".to_string(), "L".to_string(), "P".to_string()]
    );
    assert!(target::roots(Platform::Other, None, &[], &[]).is_empty());
}
