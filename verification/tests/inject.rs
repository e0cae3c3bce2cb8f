use traework_assistant::inject;
use traework_assistant::inject::{
    build_model_id, find_gateway_models_in, is_selected, scrub_by_ids, select_gateway_model_in,
    takeover_status, write_selections, Db, SelectError, CUSTOM_PROVIDER,
};
use traework_assistant::json::Json;

fn seed_db(prefix: &str, labels: &[&str], with_gateway: bool) -> Db {
    let mut lists: Vec<String> = Vec::new();
    for l in labels {
        let mut models: Vec<String> = Vec::new();
        if with_gateway {
            models.push(format!(
                r#"{{"name":"custom_openai_compatible//MyPool","provider":"{CUSTOM_PROVIDER}","config_source":3,"base_url":"http://127.0.0.1:8788/v1/chat/completions","custom_model_id":"2647612930","display_name":"MyPool"}}"#
            ));
        }
        models.push(format!(
            r#"{{"name":"custom_openai_compatible//Other","provider":"{CUSTOM_PROVIDER}","config_source":3,"base_url":"http://127.0.0.1:9999/v1/chat/completions","custom_model_id":"1","display_name":"Other"}}"#
        ));
        lists.push(format!(r#""{l}":[{}]"#, models.join(",")));
    }
    let selected: Vec<String> =
        labels.iter().map(|l| format!(r#""{l}":{{"modelId":"{l}_1__X_null","mode":0}}"#)).collect();
    let sel = (
        format!("{prefix}:AI.agent.model.recent_user_selection_by_agent_label"),
        format!("{{{}}}", selected.join(",")),
    );
    Db {
        path: format!("/tmp/{prefix}.vscdb"),
        model_lists: vec![(
            format!("{prefix}:AI.agent.model.model_list_map"),
            Some(format!("{{{}}}", lists.join(","))),
        )],
        recent: vec![sel.clone()],
        selections: vec![sel],
    }
}

#[test]
fn build_model_id_formats() {
    assert_eq!(
        build_model_id("solo_agent_lite", 3, CUSTOM_PROVIDER, "custom_openai_compatible//MyPool", Some("2647612930")),
        "solo_agent_lite_3_custom_openai_compatible_custom_openai_compatible//MyPool_2647612930"
    );
    assert_eq!(
        build_model_id("assistant", 3, CUSTOM_PROVIDER, "custom_openai_compatible//X", None),
        "assistant_3_custom_openai_compatible_custom_openai_compatible//X"
    );
    assert_eq!(
        build_model_id("assistant", 3, CUSTOM_PROVIDER, "custom_openai_compatible//X", Some("")),
        "assistant_3_custom_openai_compatible_custom_openai_compatible//X"
    );
}

#[test]
fn find_matches_gateway_model_only() {
    let db = seed_db("u1", &["solo_agent_lite", "solo_agent_remote"], true);
    let models = find_gateway_models_in(&[db], 8788);
    assert_eq!(models.len(), 1);
    assert_eq!(models[0].label, "solo_agent_lite");
    assert_eq!(models[0].base_url, "http://127.0.0.1:8788/v1/chat/completions");
    assert_eq!(models[0].custom_model_id.as_deref(), Some("2647612930"));
}

#[test]
fn find_nothing_when_absent() {
    let db = seed_db("u2", &["solo_agent_lite"], false);
    let models = find_gateway_models_in(&[db], 8788);
    assert!(models.is_empty());
}

#[test]
fn write_and_clear_selection_roundtrip() {
    let mut db = seed_db("u3", &["solo_agent_lite"], true);
    let models = find_gateway_models_in(&[seed_db("u3", &["solo_agent_lite"], true)], 8788);
    assert_eq!(models.len(), 1);
    let m = &models[0];
    let mid = build_model_id(
        &m.label,
        m.config_source,
        &m.provider,
        &m.name,
        m.custom_model_id.as_deref(),
    );
    let writes = match write_selections(&db, &[(m.label.clone(), mid.clone())]) {
        Ok(w) => w,
        Err(_) => panic!("the selections are an object"),
    };
    assert_eq!(writes.len(), 1);
    assert_eq!(writes[0].key, db.recent[0].0);
    db.recent[0].1 = writes[0].value.clone();
    db.selections[0].1 = writes[0].value.clone();
    assert!(is_selected(&db.recent, &m.label, &mid));
    let dbs = [db];
    let st = takeover_status(&dbs, 8788, false);
    assert!(st.matched);
    assert!(st.entries.iter().any(|e| e.label == "solo_agent_lite" && e.selected));
    let sel = Json::parse(&dbs[0].recent[0].1).unwrap();
    let (clean, touched) = scrub_by_ids(&sel, &[mid.clone()]);
    assert!(touched);
    let rows = vec![(dbs[0].recent[0].0.clone(), clean.to_compact())];
    assert!(!is_selected(&rows, &m.label, &mid));
}

#[test]
fn labels_are_compared_in_lower_case() {
    let db = seed_db("u4", &["Solo_REMOTE"], true);
    assert!(find_gateway_models_in(&[db], 8788).is_empty());
    assert!(inject::is_local_label("solo_agent"));
    assert!(!inject::is_local_label("x_remote_y"));
}

#[test]
fn selecting_writes_each_recent_selection() {
    let dbs = [seed_db("u5", &["a", "b"], true)];
    let plan = match select_gateway_model_in(&dbs, 8788, false) {
        Ok(p) => p,
        Err(_) => panic!("TraeWork does not run"),
    };
    assert_eq!(plan.count, 2);
    assert_eq!(plan.labels, vec!["a".to_string(), "b".to_string()]);
    assert_eq!(plan.writes.len(), 1);
    assert_eq!(plan.writes[0].db, "/tmp/u5.vscdb");
    let rows = vec![(plan.writes[0].key.clone(), plan.writes[0].value.clone())];
    let mid = build_model_id(
        "b",
        3,
        CUSTOM_PROVIDER,
        "custom_openai_compatible//MyPool",
        Some("2647612930"),
    );
    assert!(is_selected(&rows, "b", &mid));
    let none = match select_gateway_model_in(&[seed_db("u6", &["a"], false)], 8788, false) {
        Ok(p) => p,
        Err(_) => panic!("TraeWork does not run"),
    };
    assert_eq!(none.count, 0);
    assert!(none.labels.is_empty() && none.writes.is_empty());
}

#[test]
fn nothing_is_written_while_traework_runs() {
    let dbs = [seed_db("u7", &["a"], true)];
    match select_gateway_model_in(&dbs, 8788, true) {
        Err(SelectError::Running(e)) => assert!(e.contains("正在运行")),
        _ => panic!("TraeWork runs"),
    }
    assert!(inject::clear_gateway_selection_in(&dbs, 8788, true).is_err());
    assert!(inject::self_heal(true, &dbs, 8788, true).is_none());
    assert!(inject::self_heal(false, &dbs, 8788, false).is_none());
    assert_eq!(inject::self_heal(true, &dbs, 8788, false).unwrap().labels.len(), 1);
}

#[test]
fn selections_that_are_no_object_are_refused() {
    let mut db = seed_db("u8", &["a"], true);
    db.recent[0].1 = "[]".into();
    match select_gateway_model_in(&[db], 8788, false) {
        Err(SelectError::NotAnObject(key)) => {
            assert_eq!(key, "u8:AI.agent.model.recent_user_selection_by_agent_label")
        }
        _ => panic!("the selections are a list"),
    }
    let mut broken = seed_db("u9", &["a"], true);
    broken.recent[0].1 = "{ no json".into();
    assert!(select_gateway_model_in(&[broken], 8788, false).is_ok());
}

#[test]
fn clearing_counts_databases_and_spares_foreign_selections() {
    let mut db = seed_db("u10", &["a"], true);
    let dbs = [seed_db("u10", &["a"], true)];
    let plan = match select_gateway_model_in(&dbs, 8788, false) {
        Ok(p) => p,
        Err(_) => panic!("TraeWork does not run"),
    };
    let selected = plan.writes[0].value.clone();
    db.selections = vec![
        ("r".into(), selected.clone()),
        ("s".into(), selected),
        ("t".into(), r#"{"a":{"modelId":"other"}}"#.into()),
        ("u".into(), "{ no json".into()),
    ];
    let plan = inject::clear_gateway_selection_in(&[db], 8788, false).ok().unwrap();
    assert_eq!(plan.cleared, 1);
    assert_eq!(plan.writes.len(), 2);
    assert_eq!(plan.writes[0].value, r#"{"a":{"mode":0,"modelId":""}}"#);
}

#[test]
fn scrubbing_reaches_every_depth() {
    let v = Json::parse(r#"{"x":[{"modelId":"m","n":1.5},{"modelId":"k"}],"modelId":"m"}"#).unwrap();
    let (clean, touched) = scrub_by_ids(&v, &["m".to_string()]);
    assert!(touched);
    assert_eq!(
        clean.to_compact(),
        r#"{"modelId":"","x":[{"modelId":"","n":1.5},{"modelId":"k"}]}"#
    );
    let (same, touched) = scrub_by_ids(&v, &["z".to_string()]);
    assert!(!touched);
    assert_eq!(same.to_compact(), v.to_compact());
}

#[test]
fn databases_are_found_once() {
    let places = inject::db_places(&["/A".into(), "/A".into()], false);
    assert_eq!(places.len(), 10);
    assert_eq!(places[0], "/A/TRAE SOLO CN/User/globalStorage/state.vscdb");
    assert_eq!(
        inject::db_places(&["data".into()], true)[0],
        "data\\TRAE SOLO CN\\User\\globalStorage\\state.vscdb"
    );
    let seen: Vec<(String, bool)> = places.into_iter().map(|p| (p, true)).collect();
    assert_eq!(inject::locate_db(&seen).len(), 5);
    assert!(inject::locate_db(&[("/x".into(), false)]).is_empty());
    assert_eq!(inject::gateway_base_url(8788), "http://127.0.0.1:8788/v1/chat/completions");
}

#[test]
fn only_a_personal_model_is_the_gateways() {
    for (source, count) in [("3", 1), ("2", 0), ("259", 0), ("-253", 0), ("null", 0)] {
        let mut db = seed_db("u7", &["a"], true);
        let told = db.model_lists[0].1.take().unwrap();
        let own = format!(r#""config_source":{source}"#);
        db.model_lists[0].1 = Some(told.replace(r#""config_source":3"#, &own));
        assert_eq!(find_gateway_models_in(&[db], 8788).len(), count, "{source}");
    }
}
