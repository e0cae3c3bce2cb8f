use traework_assistant::commands::rules_note;
use traework_assistant::proxy::billing_prefixes;
use traework_assistant::rules::{invalidate, Rules, CACHE_TTL};
use traework_assistant::table::Table;

const BUILTIN: &[&str] = &["/api/remote/v1/chat_sessions", "/api/remote/v1/models"];

#[test]
fn default_rules_use_the_builtin_table_and_never_touch_ws() {
    let r = Rules::default();
    assert!(!r.observe_only);
    assert!(r.swap_http_prefixes.is_empty(), "默认必须用内置表");
    assert!(!r.swap_ws, "默认绝不动 WebSocket —— 那是未验证的领域");
    assert!(r.should_swap("/api/remote/v1/chat_sessions?x=1", BUILTIN));
    assert!(!r.should_swap("/api/agent/v3/llm_utils_chat", BUILTIN));
}

#[test]
fn observe_only_swallows_everything() {
    let r = Rules { observe_only: true, ..Rules::default() };
    assert!(!r.should_swap("/api/remote/v1/chat_sessions", BUILTIN));
}

#[test]
fn file_table_replaces_the_builtin_one() {
    let r = Rules { swap_http_prefixes: vec!["/api/agent/v3/".into()], ..Rules::default() };
    assert!(r.should_swap("/api/agent/v3/llm_utils_chat", BUILTIN));
    assert!(
        !r.should_swap("/api/remote/v1/chat_sessions", BUILTIN),
        "文件里的表是**取代**内置表，不是叠加"
    );
}

#[test]
fn never_swap_wins_over_everything() {
    let r = Rules {
        swap_http_prefixes: vec!["/api/".into()],
        never_swap_prefixes: vec!["/api/agent/v3/sync_history_state".into()],
        ..Rules::default()
    };
    assert!(r.should_swap("/api/agent/v3/llm_utils_chat", BUILTIN));
    assert!(!r.should_swap("/api/agent/v3/sync_history_state", BUILTIN));
}

fn swap_for(path: &str) -> bool {
    Rules::default().should_swap(path, &billing_prefixes())
}

#[test]
fn pooled_token_only_for_billing_paths() {
    assert!(swap_for("/api/remote/v1/chat_sessions"));
    assert!(swap_for("/api/remote/v1/chat_sessions/c1/messages"));
    assert!(swap_for("/api/remote/v1/chat_sessions/c1/events"));
    assert!(swap_for("/api/remote/v1/models"));
    assert!(swap_for("/api/remote/v1/file_converts/start"));
    for p in [
        "/api/remote/v1/skills?page_size=200",
        "/api/remote/v1/git/repositories",
        "/api/remote/v1/user/settings",
        "/api/remote/v1/scheduled_tasks?page_size=100",
        "/api/remote/v1/plugins?page_size=50",
        "/api/solo_hub/v1/apps/online",
        "/api/solo_hub/v1/conversations/messages/batchInsert",
        "/api/ide/v1/features",
        "/api/ide/v1/knowledgebase/ckg_config",
        "/api/v1/commercial/get_session_usage",
        "/healthz",
    ] {
        assert!(!swap_for(p), "{p} 不该换凭据");
    }
    for p in [
        "/api/agent/v3/llm_utils_chat",
        "/api/agent/v3/create_agent_task",
        "/api/agent/v3/workflow/start",
        "/api/agent/v3/sync_history_state",
        "/api/ide/v1/super_completion_query",
    ] {
        assert!(!swap_for(p), "{p} 不在内置表里（内置表是保守基线，见函数文档）");
    }
}

#[test]
fn rules_live_in_the_data_directory() {
    assert_eq!(Rules::path("/data", false), "/data/proxy-rules.json");
}

#[test]
fn remembered_rules_are_in_force_for_a_moment() {
    let mut cache: Table<Rules> = Table::new();
    assert!(Rules::cached(&cache, "/r", 0).is_none());
    let r = Rules { observe_only: true, ..Rules::default() };
    Rules::remember(&mut cache, "/r".into(), 10, &r);
    assert!(Rules::cached(&cache, "/r", 10).unwrap().observe_only);
    assert!(Rules::cached(&cache, "/r", 10 + CACHE_TTL - 1).is_some());
    assert!(Rules::cached(&cache, "/r", 10 + CACHE_TTL).is_none());
    invalidate(&mut cache);
    assert!(Rules::cached(&cache, "/r", 10).is_none());
}

#[test]
fn saved_rules_are_noted() {
    let r = Rules { swap_http_prefixes: vec!["/a".into(), "/b".into()], ..Rules::default() };
    let n = rules_note(&r);
    assert_eq!(n.event, "rules_save");
    assert_eq!(
        n.detail,
        "接管规则已更新：观察模式=false · 换号前缀 2 条 · 换 WS 凭据=false · 强制透传 0 条"
    );
}
