use traework_assistant::endpoint;
use traework_assistant::endpoint::{
    build_override_doc, doc_is_ours, first_prefixed, pick_domain, EndpointProbe, Waiting,
    LEASE_TTL_MS,
};
use traework_assistant::json::Json;

fn at<'a>(v: &'a Json, path: &[&str]) -> Option<&'a Json> {
    let mut cur = v;
    for key in path {
        cur = cur.get(key)?;
    }
    Some(cur)
}

fn text_at(v: &Json, path: &[&str]) -> Option<String> {
    at(v, path).and_then(|x| x.as_text()).cloned()
}

#[test]
fn prefers_trae_region_domain_over_alphabetical() {
    let v = Json::parse(
        r#"{"overseas":{"normal":"https://trae-api-us.mchost.guru"},"trae":{"normal":"https://trae-api-cn.mchost.guru"}}"#,
    )
    .unwrap();
    assert_eq!(pick_domain(&v, "http").as_deref(), Some("https://trae-api-cn.mchost.guru"));
    assert_eq!(pick_domain(&v, "ws"), None);
}

#[test]
fn pick_domain_falls_back_when_no_trae_key() {
    let v = Json::parse(r#"{"api":{"host":"https://x.example"}}"#).unwrap();
    assert_eq!(pick_domain(&v, "http").as_deref(), Some("https://x.example"));
}

#[test]
fn first_prefixed_walks_nested() {
    let v = Json::parse(r#"{"deep":{"deeper":{"normal":"wss://ws.example/custom_model"}}}"#).unwrap();
    assert_eq!(first_prefixed(&v, "ws").as_deref(), Some("wss://ws.example/custom_model"));
    assert_eq!(first_prefixed(&v, "http"), None);
}

#[test]
fn override_doc_marks_itself_and_targets_localhost() {
    let doc = build_override_doc("http://127.0.0.1:8788", None);
    let local = Some("http://127.0.0.1:8788".to_string());
    assert!(doc_is_ours(&doc), "必须带自识别标记");
    assert_eq!(text_at(&doc, &["bootConfig", "remote", "domain"]), local);
    assert_eq!(text_at(&doc, &["bootConfig", "remote", "trae", "normal"]), local);
    assert_eq!(text_at(&doc, &["bootConfig", "agent", "domain"]), local);
    assert!(at(&doc, &["bootConfig", "ws"]).is_none(), "v1 不得覆盖 ws.domain");
}

#[test]
fn override_doc_can_target_ws_when_asked() {
    let doc =
        build_override_doc("http://127.0.0.1:8788", Some("ws://127.0.0.1:8789/custom_model"));
    assert_eq!(
        text_at(&doc, &["bootConfig", "ws", "domain"]).as_deref(),
        Some("ws://127.0.0.1:8789/custom_model")
    );
}

#[test]
fn foreign_doc_is_not_ours() {
    let foreign = Json::parse(r#"{"bootConfig":{"remote":{"domain":"https://x"}}}"#).unwrap();
    assert!(!doc_is_ours(&foreign));
}

#[test]
fn upstreams_are_read_from_the_product_configuration() {
    let product = r#"{"bootConfig":{"remote":{"trae":{"normal":"https://a"}},"ws":{"trae":{"normal":"wss://b/c"}}}}"#;
    let (http, ws) = endpoint::read_upstreams(Some(product));
    assert_eq!(http.as_deref(), Some("https://a"));
    assert_eq!(ws.as_deref(), Some("wss://b/c"));
    assert_eq!(endpoint::read_upstreams(None), (None, None));
    assert_eq!(endpoint::read_upstreams(Some("no json")), (None, None));
}

#[test]
fn an_installed_override_is_known_when_it_is_read_back() {
    let plan =
        endpoint::install(Some("/app"), false, None, "http://127.0.0.1:8788", None, false).unwrap();
    assert_eq!(plan.path, "/app/product.desktop.local.json");
    assert!(endpoint::is_ours(Some(&plan.content)));
    assert!(plan.content.starts_with("{\n"), "it is written indented");
    let again = endpoint::install(
        Some("/app"),
        true,
        Some(&plan.content),
        "http://127.0.0.1:8788",
        None,
        false,
    );
    assert!(again.is_ok());
    assert_eq!(endpoint::uninstall(&plan.path, true, Some(&plan.content)), Ok(true));
    assert_eq!(endpoint::uninstall(&plan.path, false, None), Ok(false));
}

#[test]
fn a_foreign_override_is_left_alone() {
    let foreign = Some("{}");
    let refused = endpoint::install(Some("/app"), true, foreign, "http://127.0.0.1:1", None, false);
    assert!(refused.is_err());
    assert!(endpoint::uninstall("/app/f", true, foreign).is_err());
    assert!(!endpoint::sweep(true, foreign, false));
    assert_eq!(
        endpoint::install(None, false, None, "x", None, false).err().as_deref(),
        Some("未找到 TraeWork 安装目录")
    );
}

#[test]
fn a_leftover_override_goes_at_start_up() {
    let plan =
        endpoint::install(Some("/app"), false, None, "http://127.0.0.1:1", None, false).unwrap();
    assert!(endpoint::sweep(true, Some(&plan.content), false));
    assert!(!endpoint::sweep(true, Some(&plan.content), true));
    assert!(!endpoint::sweep(false, None, false));
}

#[test]
fn a_lease_is_fresh_until_its_time_is_over() {
    let lease = endpoint::lease_text(1_000_000);
    assert_eq!(lease, "{\"at\":1000000}");
    assert!(endpoint::lease_fresh(Some(&lease), 1_000_000));
    assert!(endpoint::lease_fresh(Some(&lease), 1_000_000 + LEASE_TTL_MS - 1));
    assert!(!endpoint::lease_fresh(Some(&lease), 1_000_000 + LEASE_TTL_MS));
    assert!(!endpoint::lease_fresh(None, 0));
    assert!(!endpoint::lease_fresh(Some("no json"), 0));
    assert_eq!(endpoint::lease_path("/data", false), "/data/endpoint_lease.json");
    assert_eq!(endpoint::lease_path("D:\\data", true), "D:\\data\\endpoint_lease.json");
}

#[test]
fn the_state_of_the_override_is_told() {
    let probe = EndpointProbe {
        app_dir: None,
        installed: false,
        content: None,
        writable: false,
        product: None,
        lease: None,
    };
    let none = endpoint::status(&probe, "http://127.0.0.1:8788", 0);
    assert!(!none.supported);
    let probe = EndpointProbe {
        app_dir: Some("/app".into()),
        installed: true,
        content: Some("{}".into()),
        writable: true,
        product: Some(r#"{"bootConfig":{"remote":{"trae":{"normal":"https://a"}}}}"#.into()),
        lease: None,
    };
    let other = endpoint::status(&probe, "http://127.0.0.1:8788", 0);
    assert!(other.supported && other.installed && !other.ours && other.writable);
    assert_eq!(other.upstream_http.as_deref(), Some("https://a"));
}

#[test]
fn places_are_tried_in_order() {
    let mac = endpoint::macos_candidates(Some("/Users/u"));
    assert!(mac[0].starts_with("/Applications/TRAE SOLO CN.app"));
    assert_eq!(mac.len(), 10);
    let win = endpoint::windows_candidates(&["L".into()], &["P".into()]);
    assert_eq!(win[0], "L\\Programs\\TRAE SOLO CN\\resources\\app");
    assert_eq!(endpoint::app_dir(&mac, &[false; 10]), None);
    let mut has = [false; 10];
    has[3] = true;
    has[5] = true;
    assert_eq!(endpoint::app_dir(&mac, &has).as_ref(), Some(&mac[3]));
    assert_eq!(
        endpoint::relaunch_candidates("L")[0],
        "L\\Programs\\TRAE SOLO CN\\TRAE SOLO CN.exe"
    );
    assert_eq!(endpoint::base_url(8788), "http://127.0.0.1:8788");
}

#[test]
fn the_process_is_found_whatever_its_case() {
    assert!(endpoint::is_trae_listed(b"\"TRAE solo cn.EXE\",\"1\""));
    assert!(!endpoint::is_trae_listed(b"\"traework-assistant.exe\",\"1\""));
    assert!(endpoint::process_pattern().contains("TRAE SOLO CN.app"));
    assert!(endpoint::process_pattern().contains('|'));
}

#[test]
fn nothing_is_changed_while_the_process_runs() {
    assert_eq!(endpoint::with_trae_restart(false, false), Ok(false));
    assert_eq!(endpoint::with_trae_restart(true, true), Ok(true));
    assert!(endpoint::with_trae_restart(true, false).is_err());
    assert!(endpoint::exit_step(false, 9, 5) == Waiting::Gone);
    assert!(endpoint::exit_step(true, 4, 5) == Waiting::Wait);
    assert!(endpoint::exit_step(true, 5, 5) == Waiting::Late);
}

#[test]
fn every_service_of_the_override_has_its_domain() {
    let doc = build_override_doc("http://127.0.0.1:8788", None);
    let local = Some("http://127.0.0.1:8788".to_string());
    for service in ["remote", "agent", "ckg", "cue", "hub"] {
        assert_eq!(text_at(&doc, &["bootConfig", service, "domain"]), local, "{service}");
        assert_eq!(text_at(&doc, &["bootConfig", service, "trae", "normal"]), local, "{service}");
    }
}

#[test]
fn an_override_is_written_again_only_where_it_is_not_in_place() {
    let base = "http://127.0.0.1:8788";
    let plan = endpoint::install(Some("/app"), false, None, base, None, false).unwrap();
    assert!(!endpoint::needs_repair(Some(&plan.content), base));
    assert!(endpoint::needs_repair(Some(&plan.content), "http://127.0.0.1:8789"));
    assert!(endpoint::needs_repair(Some(&plan.content.replacen(base, "https://x", 3)), base));
    assert!(endpoint::needs_repair(Some("{}"), base));
    assert!(endpoint::needs_repair(Some("no json"), base));
    assert!(endpoint::needs_repair(None, base));
}

#[test]
fn the_time_of_an_override_is_a_time() {
    let doc = build_override_doc("http://127.0.0.1:8788", None);
    let at = text_at(&doc, &["__traeWorkAssistant", "installed_at"]).unwrap();
    assert_eq!(at.len(), 19);
    assert_eq!(&at[10..11], " ");
}
