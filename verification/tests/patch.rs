use traework_assistant::gate::{
    gates_after, gates_before, has_ax, has_marker, patch_text, unpatch_text, AX_AFTER, AX_BEFORE,
    MARKER,
};
use traework_assistant::patch;
use traework_assistant::patch::{ApplyPlan, MainJs};

fn sample() -> String {
    let a = r#"const u=l.startsWith("https://")?`${l}/*`:`https://${l}/*`;"#;
    let b = r#"forEach(c=>{const p=c.startsWith("https://")?`${c}/*`:`https://${c}/*`;r.push(p)});"#;
    let c = r#"aX=["https://*/trae/*","wss://*/explorer/*","ws://*/explorer/*"],cX=[".trae.cn"];"#;
    format!("{a}\n{b}\n{c}\n")
}

#[test]
fn patch_then_revert_is_byte_identical() {
    let src = sample();
    let patched = patch_text(&src).unwrap();
    assert!(patched.contains("includes(\"://\")"));
    assert!(patched.contains(AX_AFTER));
    assert!(patched.trim_end().ends_with(MARKER));
    let back = unpatch_text(&patched).unwrap();
    assert_eq!(back, src, "还原必须逐字节一致");
}

#[test]
fn patch_does_not_touch_the_cors_list_copy() {
    let src = format!(
        r#"{}
r=["https://*.traeapi.us/*","https://*/trae/*","wss://*/explorer/*","ws://*/explorer/*","https://*/api/remote/*"];
"#,
        sample()
    );
    let patched = patch_text(&src).unwrap();
    assert_eq!(patched.matches(AX_AFTER).count(), 1, "只该替换那一处数组字面量");
    assert!(
        patched.contains(r#""https://*/trae/*","wss://*/explorer/*","ws://*/explorer/*","https://*/api/remote/*""#),
        "大列表必须原样保留"
    );
}

#[test]
fn refuses_when_gate_count_is_wrong() {
    let src = r#"const u=l.startsWith("https://")?`${l}/*`:`https://${l}/*`;"#.to_string();
    let err = patch_text(&src).unwrap_err();
    assert!(err.contains("拒绝打补丁"), "{err}");
    assert!(err.contains("期望 2 处"), "{err}");
}

#[test]
fn refuses_when_identity_array_is_missing() {
    let src = sample().replace(AX_BEFORE, r#"aX=["https://*/trae/*"]"#);
    let err = patch_text(&src).unwrap_err();
    assert!(err.contains("pattern 数组"), "{err}");
}

#[test]
fn mismatched_variable_names_do_not_count() {
    let src = r#"const u=l.startsWith("https://")?`${c}/*`:`https://${l}/*`;"#;
    assert_eq!(gates_before(src), 0);
}

#[test]
fn marker_is_detected_only_as_a_whole_line() {
    assert!(has_marker(&format!("x\n{MARKER}\n")));
    assert!(has_marker(&format!("x\n  {MARKER}  \n")));
    assert!(!has_marker("const s=\"//[twa-gate v1]\";"));
}

#[test]
fn file_without_trailing_newline_still_reverts_byte_identical() {
    let src = sample().trim_end().to_string();
    let patched = patch_text(&src).unwrap();
    assert_eq!(unpatch_text(&patched).unwrap(), src);
}

#[test]
fn gates_are_counted_on_both_sides() {
    let src = sample();
    assert_eq!(gates_before(&src), 2);
    assert_eq!(gates_after(&src), 0);
    assert!(has_ax(&src, AX_BEFORE));
    let patched = patch_text(&src).unwrap();
    assert_eq!(gates_before(&patched), 0);
    assert_eq!(gates_after(&patched), 2);
    assert!(has_ax(&patched, AX_AFTER));
}

#[test]
fn a_variable_may_have_letters_beyond_ascii() {
    let gate = "π变.startsWith(\"https://\")?`${π变}/*`:`https://${π变}/*`";
    // A name begins with an ASCII letter, an underscore or a dollar sign.
    assert_eq!(gates_before(gate), 0);
    let named = "_变.startsWith(\"https://\")?`${_变}/*`:`https://${_变}/*`";
    assert_eq!(gates_before(named), 1);
    let inner = "x变_.startsWith(\"https://\")?`${x变_}/*`:`https://${x变_}/*`";
    assert_eq!(gates_before(inner), 1);
}

fn found(content: &str, writable: bool) -> MainJs {
    MainJs::Found {
        path: "/app/out/main.js".into(),
        content: content.into(),
        writable,
        hint: "hint".into(),
    }
}

#[test]
fn the_state_of_the_file_is_told() {
    assert!(!patch::status(&MainJs::NoApp).supported);
    assert!(!patch::status(&MainJs::Absent("/x".into())).supported);
    assert!(!patch::status(&MainJs::Unreadable("/x".into())).supported);
    let fresh = patch::status(&found(&sample(), true));
    assert!(fresh.supported && fresh.recognized && !fresh.patched && fresh.writable);
    assert_eq!(fresh.gates, 2);
    assert!(fresh.identity_patterns);
    let done = patch::status(&found(&patch_text(&sample()).unwrap(), true));
    assert!(done.patched);
    let strange = patch::status(&found("nothing", true));
    assert!(!strange.recognized && !strange.patched);
    assert!(patch::is_patched(&found(&patch_text(&sample()).unwrap(), false)));
    assert!(!patch::is_patched(&MainJs::NoApp));
}

#[test]
fn a_digest_is_told_in_hexadecimal() {
    assert_eq!(
        patch::sha256_hex("abc"),
        "ba7816bf8f01cfea414140de5dae2223b00361a396177a9cb410ff61f20015ad"
    );
    assert_eq!(
        patch::sha256_hex(""),
        "e3b0c44298fc1c149afbf4c8996fb92427ae41e4649b934ca495991b7852b855"
    );
}

#[test]
fn applying_and_reverting_gives_the_file_back() {
    let src = sample();
    let path = "/app/out/main.js";
    let (content, record) = match patch::apply(path, &src, true, "hint").unwrap() {
        ApplyPlan::Write { content, record, .. } => (content, record),
        ApplyPlan::Already => panic!("the file is not patched yet"),
    };
    assert!(patch::record_understood(&record));
    assert_eq!(record.orig_len, src.len());
    assert_eq!(record.orig_sha256, patch::sha256_hex(&src));
    assert!(matches!(patch::apply(path, &content, true, "hint").unwrap(), ApplyPlan::Already));
    let (back, _) = patch::revert(path, &content, Some(&record)).unwrap().unwrap();
    assert_eq!(back, src);
    assert!(patch::revert(path, &src, None).unwrap().is_none());
}

#[test]
fn a_wrong_fingerprint_is_reported_and_nothing_restored() {
    let path = "/app/out/main.js";
    let content = patch_text(&sample()).unwrap();
    let got = &patch::sha256_hex(&sample())[..12];
    let mut record = patch::new_record(path, "other");
    let want = record.orig_sha256[..12].to_string();
    let told = |r: &patch::Record| patch::revert(path, &content, Some(r)).err().unwrap();
    assert!(told(&record).contains(&format!("（期望 {want}…，实得 {got}…）")));
    // The twelfth byte lies inside a character: the whole characters before it are shown.
    record.orig_sha256 = "a指纹指纹指纹".into();
    assert!(told(&record).contains(&format!("（期望 a指纹指…，实得 {got}…）")));
    record.orig_sha256 = "短".into();
    assert!(told(&record).contains("（期望 短…，"));
    assert!(patch::revert(path, &sample(), Some(&record)).unwrap().is_none());
    record.schema = 9;
    assert!(!patch::record_understood(&record));
    assert!(patch::revert(path, &content, Some(&record)).is_ok());
    let moved = patch::new_record("/elsewhere", "other");
    assert!(patch::revert(path, &content, Some(&moved)).is_ok());
}

#[test]
fn an_unknown_version_or_a_locked_file_is_refused() {
    let path = "/app/out/main.js";
    assert!(patch::apply(path, "nothing", true, "hint").is_err());
    assert!(patch::apply(path, &sample(), false, "hint").is_err());
}

#[test]
fn records_and_files_have_their_places() {
    assert_eq!(patch::main_js_path(Some("/app"), false).as_deref(), Some("/app/out/main.js"));
    assert_eq!(patch::main_js_path(None, false), None);
    assert_eq!(patch::record_path("/data", false), "/data/patch_main_js.json");
}
