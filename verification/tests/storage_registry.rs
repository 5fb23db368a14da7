use agent_pin::path::join;
use agent_pin::pin::{MarkdownBlock, PinBlock, PinDocument};
use agent_pin::registry::{build_meta, build_meta_at, format_pin_id, generate_pin_id, PinRegistry};
use agent_pin::storage::{
    data_dir, home_or_fallback, image_file_name, images_dir, pin_file_path, pins_dir,
    state_file_path, validate_pin_id, PinMeta, PinState, StateFile, WindowSizeBits,
};

fn doc(title: &str, created_at: Option<&str>) -> PinDocument {
    PinDocument {
        version: 1,
        title: title.to_string(),
        blocks: vec![PinBlock::Markdown(MarkdownBlock {
            content: "hello".to_string(),
        })],
        window: None,
        source: None,
        created_at: created_at.map(|s| s.to_string()),
    }
}

// ---------- validate_pin_id ----------

#[test]
fn test_validate_pin_id_valid() {
    assert!(validate_pin_id("pin_1234567890_000001").is_ok());
    assert!(validate_pin_id("pin_0_999999").is_ok());
    assert!(validate_pin_id("abc123").is_ok());
}

#[test]
fn test_validate_pin_id_empty() {
    assert!(validate_pin_id("").is_err());
}

#[test]
fn test_validate_pin_id_path_traversal() {
    assert!(validate_pin_id("pin_123/sub").is_err());
    assert!(validate_pin_id("pin_123\\sub").is_err());
    assert!(validate_pin_id("..").is_err());
    assert!(validate_pin_id("pin_../../state").is_err());
    assert!(validate_pin_id("pin_123\0evil").is_err());
}

#[test]
fn test_validate_pin_id_too_long() {
    let long_id = "a".repeat(129);
    assert!(validate_pin_id(&long_id).is_err());
}

#[test]
fn test_validate_pin_id_manager_reserved() {
    assert!(validate_pin_id("manager").is_err());
}

#[test]
fn test_validate_pin_id_at_length_limit() {
    let id = "a".repeat(128);
    assert!(validate_pin_id(&id).is_ok());
}

#[test]
fn validate_pin_id_messages_are_exact() {
    assert_eq!(validate_pin_id("").unwrap_err(), "pin_id must be non-empty");
    assert_eq!(
        validate_pin_id(&"a".repeat(129)).unwrap_err(),
        "pin_id too long (max 128 chars): 129 chars"
    );
    assert_eq!(
        validate_pin_id("a/b").unwrap_err(),
        "invalid pin_id (path traversal detected): a/b"
    );
    assert_eq!(
        validate_pin_id("manager").unwrap_err(),
        "pin_id 'manager' is reserved and cannot be used"
    );
    // 128 bytes of a multi-byte character count in bytes, not characters
    assert!(validate_pin_id(&"中".repeat(43)).is_err());
    assert!(validate_pin_id(&"中".repeat(42)).is_ok());
}

// ---------- data directory layout ----------

#[test]
fn test_pin_file_path_construction() {
    let path = pin_file_path("/home/user", "pin_123_000001");
    assert!(path.ends_with("pin_123_000001.json"));
    assert!(path.contains("pins"));
}

#[test]
fn data_dir_layout_is_exact() {
    assert_eq!(data_dir("/home/user"), "/home/user/.agent-pin");
    assert_eq!(data_dir("/home/user/"), "/home/user/.agent-pin");
    assert_eq!(pins_dir("/home/user"), "/home/user/.agent-pin/pins");
    assert_eq!(images_dir("/home/user"), "/home/user/.agent-pin/images");
    assert_eq!(state_file_path("/home/user"), "/home/user/.agent-pin/state.json");
    assert_eq!(
        pin_file_path("/home/user", "pin_1_000002"),
        "/home/user/.agent-pin/pins/pin_1_000002.json"
    );
}

#[test]
fn test_production_forwarding_path_consistency() {
    let home = home_or_fallback(Some("/home/user".to_string()));
    assert_eq!(data_dir(&home), join(&home, ".agent-pin"));
    assert_eq!(home_or_fallback(None), ".");
    assert_eq!(data_dir(&home_or_fallback(None)), "./.agent-pin");
}

#[test]
fn test_state_file_default() {
    let state = StateFile::default();
    assert_eq!(state.version, 1);
    assert!(state.pins.is_empty());
}

#[test]
fn image_file_name_format() {
    assert_eq!(image_file_name(1700000000000, 42, 7, "png"), "image_1700000000000_42_7.png");
    assert_eq!(image_file_name(0, 0, 0, "gif"), "image_0_0_0.gif");
}

// ---------- pin ids ----------

#[test]
fn test_generate_pin_id_format() {
    let id = generate_pin_id();
    assert!(id.starts_with("pin_"), "pin_id must start with 'pin_': {}", id);
    let parts: Vec<&str> = id.split('_').collect();
    assert_eq!(parts.len(), 3, "pin_id must have 3 underscore-separated parts: {}", id);
    assert_eq!(parts[0], "pin");
    parts[1].parse::<i64>().expect("timestamp part must be numeric");
    assert_eq!(parts[2].len(), 6, "random part must be 6 digits: {}", id);
    parts[2].parse::<u32>().expect("random part must be numeric");
}

#[test]
fn test_generate_pin_id_uniqueness() {
    let mut ids: std::collections::HashSet<String> = std::collections::HashSet::new();
    for _ in 0..100 {
        ids.insert(generate_pin_id());
    }
    assert_eq!(ids.len(), 100, "generated pin_ids should be unique");
}

#[test]
fn format_pin_id_pads_and_signs() {
    assert_eq!(format_pin_id(1700000000000, 42), "pin_1700000000000_000042");
    assert_eq!(format_pin_id(-5, 999999), "pin_-5_999999");
    assert_eq!(format_pin_id(0, 0), "pin_0_000000");
}

#[test]
fn generated_ids_pass_both_checks() {
    for _ in 0..20 {
        let id = generate_pin_id();
        assert!(validate_pin_id(&id).is_ok());
        assert!(agent_pin::cli::validate_pin_id(&id).is_ok());
    }
    let extreme = format_pin_id(i64::MIN, 999999);
    assert!(validate_pin_id(&extreme).is_ok());
    assert!(agent_pin::cli::validate_pin_id(&extreme).is_ok());
}

// ---------- registry ----------

#[test]
fn test_registry_new_empty() {
    let reg = PinRegistry::new();
    assert!(reg.list().is_empty());
    assert!(reg.list_recent_hidden(5).is_empty());
    assert!(reg.get("nonexistent").is_none());
    assert!(reg.get_meta("nonexistent").is_none());
}

#[test]
fn test_build_meta_uses_doc_created_at() {
    let d = doc("Test", Some("2026-01-01T00:00:00Z"));
    let meta = build_meta("pin_123_000001", &d, PinState::Visible);
    assert_eq!(meta.pin_id, "pin_123_000001");
    assert_eq!(meta.title, "Test");
    assert_eq!(meta.created_at, "2026-01-01T00:00:00Z");
    assert_eq!(meta.state, PinState::Visible);
}

#[test]
fn test_build_meta_fallback_created_at() {
    let d = doc("Test", None);
    let meta = build_meta("pin_123_000001", &d, PinState::Hidden);
    assert!(!meta.created_at.is_empty());
    assert_eq!(meta.state, PinState::Hidden);
}

#[test]
fn build_meta_at_stamps_now() {
    let d = doc("T", None);
    let meta = build_meta_at("pin_1_000001", &d, PinState::Visible, "2026-02-02T00:00:00Z".to_string());
    assert_eq!(meta.created_at, "2026-02-02T00:00:00Z");
    assert_eq!(meta.updated_at, "2026-02-02T00:00:00Z");
    assert!(meta.window_size.is_none());
}

fn registry_with(ids: &[(&str, &str)]) -> PinRegistry {
    let mut reg = PinRegistry::new();
    for (id, created) in ids {
        reg.insert_at(id.to_string(), doc(id, Some(created)), format!("{}-u", created));
    }
    reg
}

#[test]
fn insert_then_get_finds_the_pin() {
    let mut reg = PinRegistry::new();
    let meta = reg.insert_at("pin_1_000001".to_string(), doc("One", None), "2026-01-01T00:00:00Z".to_string());
    assert_eq!(meta.state, PinState::Visible);
    assert_eq!(reg.get("pin_1_000001").unwrap().title, "One");
    assert_eq!(reg.get_meta("pin_1_000001").unwrap().created_at, "2026-01-01T00:00:00Z");
    assert_eq!(reg.len(), 1);
    // a second insert under the same id replaces the first
    reg.insert_at("pin_1_000001".to_string(), doc("Two", None), "2026-01-02T00:00:00Z".to_string());
    assert_eq!(reg.len(), 1);
    assert_eq!(reg.get("pin_1_000001").unwrap().title, "Two");
}

#[test]
fn list_is_newest_first_and_state_file_oldest_first() {
    let reg = registry_with(&[("pin_b", "2026-01-02"), ("pin_a", "2026-01-01"), ("pin_c", "2026-01-03")]);
    let ids: Vec<String> = reg.list().into_iter().map(|m| m.pin_id).collect();
    assert_eq!(ids, vec!["pin_c", "pin_b", "pin_a"]);
    let state = reg.state_snapshot();
    assert_eq!(state.version, 1);
    let ids: Vec<String> = state.pins.into_iter().map(|m| m.pin_id).collect();
    assert_eq!(ids, vec!["pin_a", "pin_b", "pin_c"]);
}

#[test]
fn set_state_and_rollback() {
    let mut reg = registry_with(&[("pin_a", "2026-01-01")]);
    let (old_state, old_updated) = reg
        .set_state_at("pin_a", PinState::Hidden, "2026-05-05".to_string())
        .unwrap();
    assert_eq!(old_state, PinState::Visible);
    assert_eq!(reg.get_meta("pin_a").unwrap().state, PinState::Hidden);
    assert_eq!(reg.get_meta("pin_a").unwrap().updated_at, "2026-05-05");
    reg.set_state_at("pin_a", old_state, old_updated.clone()).unwrap();
    assert_eq!(reg.get_meta("pin_a").unwrap().state, PinState::Visible);
    assert_eq!(reg.get_meta("pin_a").unwrap().updated_at, old_updated);
    assert_eq!(
        reg.set_state_at("missing", PinState::Hidden, "x".to_string()).unwrap_err(),
        "pin not found: missing"
    );
}

#[test]
fn remove_is_idempotent_and_validates() {
    let mut reg = registry_with(&[("pin_a", "2026-01-01"), ("pin_b", "2026-01-02")]);
    let removed = reg.remove("pin_a").unwrap();
    assert_eq!(removed.unwrap().meta.pin_id, "pin_a");
    assert!(reg.get("pin_a").is_none());
    assert!(reg.remove("pin_a").unwrap().is_none());
    assert_eq!(reg.len(), 1);
    assert!(reg.remove("../x").is_err());
    assert_eq!(reg.len(), 1);
}

fn ids_of(reg: &PinRegistry) -> Vec<String> {
    reg.list().into_iter().map(|m| m.pin_id).collect()
}

#[test]
fn failed_write_undoes_a_creation() {
    let mut reg = registry_with(&[("pin_a", "2026-01-01")]);
    reg.insert_at("pin_b".to_string(), doc("B", None), "2026-01-02".to_string());
    let r = reg.commit_insert("pin_b", Err("disk full".to_string()));
    assert_eq!(r.unwrap_err(), "failed to save state.json: disk full");
    assert!(reg.get("pin_b").is_none());
    assert_eq!(ids_of(&reg), vec!["pin_a"]);
    reg.insert_at("pin_b".to_string(), doc("B", None), "2026-01-02".to_string());
    assert!(reg.commit_insert("pin_b", Ok(())).is_ok());
    assert_eq!(reg.get("pin_b").unwrap().title, "B");
    assert_eq!(reg.len(), 2);
    // the undo does not depend on the id passing the id checks
    reg.insert_at("manager".to_string(), doc("M", None), "2026-01-03".to_string());
    assert!(reg.commit_insert("manager", Err("disk full".to_string())).is_err());
    assert!(reg.get("manager").is_none());
    assert_eq!(reg.len(), 2);
}

#[test]
fn failed_write_undoes_a_state_change() {
    let mut reg = registry_with(&[("pin_a", "2026-01-01")]);
    let (s, u) = reg.set_state_at("pin_a", PinState::Hidden, "2026-05-05".to_string()).unwrap();
    let r = reg.commit_set_state("pin_a", s, u.clone(), Err("denied".to_string()));
    assert_eq!(r.unwrap_err(), "failed to save state.json: denied");
    let m = reg.get_meta("pin_a").unwrap();
    assert_eq!(m.state, PinState::Visible);
    assert_eq!(m.updated_at, u);
    let (s, u) = reg.set_state_at("pin_a", PinState::Hidden, "2026-05-06".to_string()).unwrap();
    assert!(reg.commit_set_state("pin_a", s, u, Ok(())).is_ok());
    let m = reg.get_meta("pin_a").unwrap();
    assert_eq!(m.state, PinState::Hidden);
    assert_eq!(m.updated_at, "2026-05-06");
}

#[test]
fn failed_write_undoes_a_removal() {
    let mut reg = registry_with(&[("pin_a", "2026-01-01"), ("pin_b", "2026-01-02")]);
    let removed = reg.remove("pin_a").unwrap().unwrap();
    let r = reg.commit_remove(removed, Err("io".to_string()));
    assert_eq!(r.unwrap_err(), "failed to save state.json: io");
    assert_eq!(reg.get("pin_a").unwrap().title, "pin_a");
    assert_eq!(ids_of(&reg), vec!["pin_b", "pin_a"]);
    let removed = reg.remove("pin_a").unwrap().unwrap();
    assert!(reg.commit_remove(removed, Ok(())).is_ok());
    assert!(reg.get("pin_a").is_none());
    assert_eq!(reg.len(), 1);
}

#[test]
fn recent_hidden_lists_only_hidden_most_recent_first() {
    let mut reg = registry_with(&[
        ("pin_a", "2026-01-01"),
        ("pin_b", "2026-01-02"),
        ("pin_c", "2026-01-03"),
    ]);
    reg.set_state_at("pin_a", PinState::Hidden, "2026-03-01".to_string()).unwrap();
    reg.set_state_at("pin_c", PinState::Hidden, "2026-03-02".to_string()).unwrap();
    let ids: Vec<String> = reg.list_recent_hidden(5).into_iter().map(|m| m.pin_id).collect();
    assert_eq!(ids, vec!["pin_c", "pin_a"]);
    let ids: Vec<String> = reg.list_recent_hidden(1).into_iter().map(|m| m.pin_id).collect();
    assert_eq!(ids, vec!["pin_c"]);
    assert!(reg.is_still_visible("pin_b"));
    assert!(!reg.is_still_visible("pin_a"));
    assert!(!reg.is_still_visible("missing"));
}

fn meta(id: &str, state: PinState) -> PinMeta {
    PinMeta {
        pin_id: id.to_string(),
        title: format!("title {}", id),
        created_at: "2026-01-01T00:00:00Z".to_string(),
        updated_at: "2026-01-01T00:00:00Z".to_string(),
        state,
        source: None,
        window_size: None,
    }
}

#[test]
fn load_from_disk_hides_visible_and_fails_missing_documents() {
    let mut reg = PinRegistry::new();
    let loaded = vec![
        (meta("pin_a", PinState::Visible), Some(doc("a", None))),
        (meta("pin_b", PinState::Hidden), None),
        (meta("pin_c", PinState::Hidden), Some(doc("c", None))),
        (meta("../evil", PinState::Hidden), Some(doc("e", None))),
    ];
    let changed = reg.load_from_disk(loaded, "2026-09-09T00:00:00Z".to_string());
    assert!(changed);
    assert_eq!(reg.len(), 3);
    let a = reg.get_meta("pin_a").unwrap();
    assert_eq!(a.state, PinState::Hidden);
    assert_eq!(a.updated_at, "2026-09-09T00:00:00Z");
    let b = reg.get_meta("pin_b").unwrap();
    assert_eq!(b.state, PinState::Failed);
    let placeholder = reg.get("pin_b").unwrap();
    match &placeholder.blocks[0] {
        PinBlock::Markdown(m) => assert!(m.content.contains("pin_b")),
        other => panic!("expected placeholder markdown, got {:?}", other),
    }
    assert_eq!(reg.get_meta("pin_c").unwrap().state, PinState::Hidden);
    assert!(reg.get_meta("../evil").is_none());
}

#[test]
fn load_from_disk_without_changes() {
    let mut reg = PinRegistry::new();
    let loaded = vec![(meta("pin_c", PinState::Hidden), Some(doc("c", None)))];
    assert!(!reg.load_from_disk(loaded, "now".to_string()));
}

#[test]
fn recreating_marks() {
    let mut reg = registry_with(&[("pin_a", "2026-01-01")]);
    assert!(!reg.is_recreating("pin_a"));
    reg.mark_recreating("pin_a");
    assert!(reg.is_recreating("pin_a"));
    reg.unmark_recreating("pin_a");
    assert!(!reg.is_recreating("pin_a"));
}

#[test]
fn remember_window_size_records_bits() {
    let mut reg = registry_with(&[("pin_a", "2026-01-01")]);
    let size = WindowSizeBits {
        width_bits: 500.0f64.to_bits(),
        height_bits: 300.0f64.to_bits(),
    };
    reg.remember_window_size("pin_a", size).unwrap();
    assert_eq!(reg.get_meta("pin_a").unwrap().window_size, Some(size));
    assert_eq!(
        reg.remember_window_size("missing", size).unwrap_err(),
        "pin not found: missing"
    );
}

#[test]
fn restart_keeps_history() {
    let mut reg = registry_with(&[("pin_a", "2026-01-01"), ("pin_b", "2026-01-02")]);
    reg.set_state_at("pin_b", PinState::Hidden, "2026-01-05".to_string()).unwrap();
    let state = reg.state_snapshot();
    let loaded: Vec<(PinMeta, Option<PinDocument>)> = state
        .pins
        .into_iter()
        .map(|m| {
            let d = reg.get(&m.pin_id);
            (m, d)
        })
        .collect();
    let mut restarted = PinRegistry::new();
    assert!(restarted.load_from_disk(loaded, "2026-09-09".to_string()));
    assert_eq!(restarted.len(), 2);
    let a = restarted.get_meta("pin_a").unwrap();
    assert_eq!(a.state, PinState::Hidden);
    assert_eq!(a.updated_at, "2026-09-09");
    assert_eq!(a.created_at, "2026-01-01");
    let b = restarted.get_meta("pin_b").unwrap();
    assert_eq!(b.state, PinState::Hidden);
    assert_eq!(b.updated_at, "2026-01-05");
    assert_eq!(restarted.get("pin_a").unwrap().title, "pin_a");
}
