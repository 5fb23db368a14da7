use agent_pin::storage::{PinMeta, PinState};
use agent_pin::tray::{
    build_update_label, menu_action, tray_menu, truncate, update_dialog_text, MenuAction, MenuEntry,
};
use agent_pin::updater::{
    cache_path_for, cached_latest_version, cached_result, cached_result_after, compare_version,
    fresh_after, is_cache_fresh, latest_if_fresh,
    new_update_cache, no_release_result, parse_version, result_after_fetch, strip_v, update_result,
    PreId, UpdateCache, VersionCmp, REPO_URL,
};

fn cache_at(t: String) -> UpdateCache {
    UpdateCache {
        last_checked_at: t,
        latest_version: "0.1.1".to_string(),
    }
}

// ---------- versions ----------

#[test]
fn test_strip_v() {
    assert_eq!(strip_v("v0.1.0"), "0.1.0");
    assert_eq!(strip_v("0.1.0"), "0.1.0");
}

#[test]
fn test_parse_version() {
    assert_eq!(parse_version("0.1.0"), (0, 1, 0, true, vec![]));
    assert_eq!(parse_version("1.2.3"), (1, 2, 3, true, vec![]));
    assert_eq!(
        parse_version("0.1.0-beta.1"),
        (0, 1, 0, false, vec![PreId::Str("beta".into()), PreId::Num(1)])
    );
    assert_eq!(parse_version("0.1"), (0, 1, 0, true, vec![]));
    assert_eq!(parse_version("0"), (0, 0, 0, true, vec![]));
}

#[test]
fn test_compare_version() {
    assert_eq!(compare_version("0.1.0", "0.1.1"), VersionCmp::Lt);
    assert_eq!(compare_version("0.1.0", "0.1.0"), VersionCmp::Eq);
    assert_eq!(compare_version("0.2.0", "0.1.9"), VersionCmp::Gt);
    assert_eq!(compare_version("1.0.0", "0.9.9"), VersionCmp::Gt);
    assert_eq!(compare_version("0.1.0-beta.1", "0.1.0"), VersionCmp::Lt);
    assert_eq!(compare_version("0.1.0", "0.1.0-beta.1"), VersionCmp::Gt);
    assert_eq!(compare_version("0.1.0-beta.1", "0.1.0-beta.1"), VersionCmp::Eq);
    assert_eq!(compare_version("0.1.0-beta.1", "0.1.0-beta.2"), VersionCmp::Lt);
    assert_eq!(compare_version("0.1.0-beta.2", "0.1.0-beta.1"), VersionCmp::Gt);
    assert_eq!(compare_version("0.1.0-beta.10", "0.1.0-beta.2"), VersionCmp::Gt);
    assert_eq!(compare_version("0.1.0-beta.1", "0.1.0-rc.1"), VersionCmp::Lt);
    assert_eq!(compare_version("0.1.0-beta", "0.1.0-beta.1"), VersionCmp::Lt);
}

#[test]
fn compare_version_numeric_ids_rank_below_text() {
    assert_eq!(compare_version("1.0.0-1", "1.0.0-alpha"), VersionCmp::Lt);
    assert_eq!(compare_version("1.0.0-alpha", "1.0.0-1"), VersionCmp::Gt);
    assert!(compare_version("0.1.0", "0.1.1").is_lt());
    assert!(!compare_version("0.1.1", "0.1.1").is_lt());
}

// ---------- cache ----------

#[test]
fn test_is_cache_fresh_just_checked() {
    let cache = cache_at(chrono::Utc::now().to_rfc3339());
    assert!(is_cache_fresh(&cache), "cache just written must be fresh");
}

#[test]
fn test_is_cache_fresh_within_24h() {
    let one_hour_ago = chrono::Utc::now() - chrono::Duration::hours(1);
    let cache = cache_at(one_hour_ago.to_rfc3339());
    assert!(is_cache_fresh(&cache), "cache within 24h must be fresh");
}

#[test]
fn test_is_cache_fresh_expired_25h() {
    let then = chrono::Utc::now() - chrono::Duration::hours(25);
    let cache = cache_at(then.to_rfc3339());
    assert!(!is_cache_fresh(&cache), "cache older than 24h must not be fresh");
}

#[test]
fn test_is_cache_fresh_invalid_timestamp() {
    let cache = cache_at("not a timestamp".to_string());
    assert!(!is_cache_fresh(&cache), "invalid timestamp must not be fresh");
}

#[test]
fn test_is_cache_fresh_empty_timestamp() {
    let cache = cache_at("".to_string());
    assert!(!is_cache_fresh(&cache), "empty timestamp must not be fresh");
}

#[test]
fn test_cache_path_for_construction() {
    let path = cache_path_for("/tmp/fake-home");
    assert!(path.ends_with("update-cache.json"));
    assert!(path.contains(".agent-pin"));
    assert_eq!(path, "/tmp/fake-home/.agent-pin/update-cache.json");
}

#[test]
fn cached_latest_version_needs_a_fresh_cache() {
    assert_eq!(cached_latest_version(None), None);
    let fresh = cache_at(chrono::Utc::now().to_rfc3339());
    assert_eq!(cached_latest_version(Some(fresh)), Some("0.1.1".to_string()));
    let stale = cache_at((chrono::Utc::now() - chrono::Duration::hours(30)).to_rfc3339());
    assert_eq!(cached_latest_version(Some(stale)), None);
    assert_eq!(cached_latest_version(Some(cache_at("garbage".to_string()))), None);
}

#[test]
fn cached_result_reports_from_cache() {
    let fresh = cache_at(chrono::Utc::now().to_rfc3339());
    let r = cached_result(false, "v0.1.0", Some(fresh)).expect("fresh cache answers");
    assert!(r.has_update);
    assert!(r.from_cache);
    assert_eq!(r.current_version, "0.1.0");
    assert_eq!(r.latest_version, "0.1.1");
    assert_eq!(r.release_url, REPO_URL);
    let fresh = cache_at(chrono::Utc::now().to_rfc3339());
    assert!(cached_result(true, "0.1.0", Some(fresh)).is_none());
    assert!(cached_result(false, "0.1.0", None).is_none());
}

#[test]
fn cache_freshness_by_age() {
    assert!(fresh_after(Some(0)));
    assert!(fresh_after(Some(3600)));
    assert!(fresh_after(Some(86_399)));
    assert!(!fresh_after(Some(86_400)));
    assert!(!fresh_after(Some(90_000)));
    assert!(!fresh_after(None));
}

#[test]
fn latest_if_fresh_by_age() {
    let c = || cache_at("2024-01-01T00:00:00Z".to_string());
    assert_eq!(latest_if_fresh(Some(c()), Some(3600)), Some("0.1.1".to_string()));
    assert_eq!(latest_if_fresh(Some(c()), Some(90_000)), None);
    assert_eq!(latest_if_fresh(Some(c()), None), None);
    assert_eq!(latest_if_fresh(None, Some(3600)), None);
}

#[test]
fn cached_result_after_by_age() {
    let c = || cache_at("2024-01-01T00:00:00Z".to_string());
    let r = cached_result_after(false, "0.1.0", Some(c()), Some(3600)).expect("fresh cache answers");
    assert!(r.has_update);
    assert!(r.from_cache);
    assert_eq!(r.current_version, "0.1.0");
    assert_eq!(r.latest_version, "0.1.1");
    assert_eq!(r.release_url, REPO_URL);
    let r = cached_result_after(false, "v0.1.1", Some(c()), Some(10)).unwrap();
    assert!(!r.has_update);
    assert!(cached_result_after(true, "0.1.0", Some(c()), Some(3600)).is_none());
    assert!(cached_result_after(false, "0.1.0", Some(c()), Some(90_000)).is_none());
    assert!(cached_result_after(false, "0.1.0", Some(c()), None).is_none());
    assert!(cached_result_after(false, "0.1.0", None, Some(3600)).is_none());
}

#[test]
fn results_after_fetch() {
    let (r, cache) = result_after_fetch("0.1.0", Ok(Some("v0.2.0".to_string()))).unwrap();
    assert!(r.has_update);
    assert!(!r.from_cache);
    assert_eq!(r.latest_version, "0.2.0");
    assert_eq!(cache, Some("0.2.0".to_string()));
    let (r, cache) = result_after_fetch("0.1.0", Ok(None)).unwrap();
    assert!(!r.has_update);
    assert_eq!(r.latest_version, "0.1.0");
    assert_eq!(cache, None);
    assert_eq!(
        result_after_fetch("0.1.0", Err("github api request: boom".to_string())).unwrap_err(),
        "github api request: boom"
    );
    let same = update_result("0.3.0", "v0.3.0", false);
    assert!(!same.has_update);
    let none = no_release_result("v1.0.0");
    assert_eq!(none.current_version, "1.0.0");
    let c = new_update_cache("0.2.0", "2026-01-01T00:00:00Z".to_string());
    assert_eq!(c.latest_version, "0.2.0");
    assert_eq!(c.last_checked_at, "2026-01-01T00:00:00Z");
}

// ---------- tray ----------

#[test]
fn truncate_counts_characters() {
    assert_eq!(truncate("short", 30), "short");
    assert_eq!(truncate("abcdef", 3), "abc…");
    assert_eq!(truncate("中文标题很长", 4), "中文标题…");
    assert_eq!(truncate("中文标题", 4), "中文标题");
    assert_eq!(truncate("", 0), "");
}

#[test]
fn update_label_shows_cached_version() {
    assert_eq!(build_update_label(Some("0.2.0".to_string())), "检查更新（最新 v0.2.0）");
    assert_eq!(build_update_label(None), "检查更新");
}

fn hidden_meta(id: &str, title: &str) -> PinMeta {
    PinMeta {
        pin_id: id.to_string(),
        title: title.to_string(),
        created_at: "c".to_string(),
        updated_at: "u".to_string(),
        state: PinState::Hidden,
        source: None,
        window_size: None,
    }
}

fn item(e: &MenuEntry) -> (String, String) {
    match e {
        MenuEntry::Item { id, label } => (id.clone(), label.clone()),
        MenuEntry::Separator => ("-".to_string(), "-".to_string()),
    }
}

#[test]
fn tray_menu_layout() {
    let empty = tray_menu(&vec![], "检查更新".to_string());
    let items: Vec<(String, String)> = empty.iter().map(item).collect();
    assert_eq!(items.len(), 5);
    assert_eq!(items[0], ("open_manager".to_string(), "打开管理界面".to_string()));
    assert_eq!(items[1], ("hide_all".to_string(), "隐藏全部 Pin".to_string()));
    assert_eq!(items[2], ("check_update".to_string(), "检查更新".to_string()));
    assert_eq!(items[3].0, "-");
    assert_eq!(items[4], ("quit".to_string(), "退出 Agent Pin".to_string()));

    let long_title = "x".repeat(40);
    let recent = vec![hidden_meta("pin_b", "B"), hidden_meta("pin_a", &long_title)];
    let menu = tray_menu(&recent, "L".to_string());
    let items: Vec<(String, String)> = menu.iter().map(item).collect();
    assert_eq!(items.len(), 8);
    assert_eq!(items[0], ("pin_b".to_string(), "B".to_string()));
    assert_eq!(items[1].0, "pin_a");
    assert_eq!(items[1].1, format!("{}…", "x".repeat(30)));
    assert_eq!(items[2].0, "-");
    assert_eq!(items[5], ("check_update".to_string(), "L".to_string()));
}

#[test]
fn menu_actions() {
    assert!(matches!(menu_action("quit"), MenuAction::Quit));
    assert!(matches!(menu_action("open_manager"), MenuAction::OpenManager));
    assert!(matches!(menu_action("hide_all"), MenuAction::HideAll));
    assert!(matches!(menu_action("check_update"), MenuAction::CheckUpdate));
    match menu_action("pin_1_000001") {
        MenuAction::ShowPin(id) => assert_eq!(id, "pin_1_000001"),
        other => panic!("expected ShowPin, got {:?}", other),
    }
    assert!(matches!(menu_action("something"), MenuAction::Ignore));
}

#[test]
fn update_dialog_texts() {
    let newer = update_result("0.1.0", "0.2.0", false);
    assert_eq!(
        update_dialog_text(&newer),
        "发现新版本 v0.2.0\n当前版本 v0.1.0\n\n点击确定打开下载页面。"
    );
    let same = update_result("0.2.0", "0.2.0", false);
    assert_eq!(update_dialog_text(&same), "已是最新版本 v0.2.0");
}
