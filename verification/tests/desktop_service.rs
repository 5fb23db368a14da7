use agent_pin::commands::{
    can_read_pin_document, check_external_url, close_pin_begin, delete_pin_begin, hide_all_outcome,
    hide_pin_begin, is_manager_label, is_pin_owner_label, is_pin_window_label, readable_document,
    remember_pin_size, require_manager, require_pin_owner, scheme_verdict,
    state_after_failed_destroy, window_destroyed, DestroyedOutcome,
};
use agent_pin::http::{
    admit_new_pin, destroy_failed_response, err_response, hide_all_response, hide_request_begin,
    new_pin_window_done, NewPinStep,
    image_copy_extension, image_copy_plan, is_localhost_host, request_guard, set_image_path,
    show_pin_err_response,
};
use agent_pin::pin::{ImageBlock, MarkdownBlock, PinBlock, PinDocument, PinErrorCode, StatusBlock};
use agent_pin::pin_actions::{
    async_create_begin, async_create_finished, existing_window_shown, mark_visible_failed,
    prepare_rebuild, rebuild_failed, show_pin_begin, sync_show_saved, sync_window_created,
    visible_pin_ids, AsyncCreateOutcome, HideAllRun, ShowPinError, SyncShowAction,
};
use agent_pin::registry::PinRegistry;
use agent_pin::storage::{PinState, WindowSizeBits};
use agent_pin::window::{always_on_top_of, explicit_position, fit_height_gate, pin_window_url};

fn doc(title: &str) -> PinDocument {
    PinDocument {
        version: 1,
        title: title.to_string(),
        blocks: vec![PinBlock::Markdown(MarkdownBlock {
            content: "hello".to_string(),
        })],
        window: None,
        source: None,
        created_at: None,
    }
}

fn registry(states: &[(&str, PinState)]) -> PinRegistry {
    let mut reg = PinRegistry::new();
    for (i, (id, state)) in states.iter().enumerate() {
        reg.insert_at(id.to_string(), doc(id), format!("2026-01-0{}", i + 1));
        if *state != PinState::Visible {
            reg.set_state_at(id, *state, format!("2026-02-0{}", i + 1)).unwrap();
        }
    }
    reg
}

// ---------- error answers ----------

#[test]
fn test_err_response_status_and_body() {
    let e = err_response(400, PinErrorCode::InvalidJson, "invalid JSON: unexpected token".to_string());
    assert_eq!(e.status, 400);
    assert_eq!(e.code.as_str(), "INVALID_JSON");
    assert_eq!(e.message, "invalid JSON: unexpected token");
}

#[test]
fn test_err_response_internal_error() {
    let e = err_response(500, PinErrorCode::InternalError, "disk full".to_string());
    assert_eq!(e.status, 500);
    assert_eq!(e.code.as_str(), "INTERNAL_ERROR");
}

#[test]
fn test_err_response_pin_not_found() {
    let e = err_response(404, PinErrorCode::PinNotFound, "pin not found: pin_123".to_string());
    assert_eq!(e.status, 404);
    assert_eq!(e.code.as_str(), "PIN_NOT_FOUND");
}

#[test]
fn test_show_pin_err_response_not_found() {
    let e = show_pin_err_response(ShowPinError::NotFound("pin not found: pin_123".into()));
    assert_eq!(e.status, 404);
    assert_eq!(e.code.as_str(), "PIN_NOT_FOUND");
    assert!(e.message.contains("pin_123"));
}

#[test]
fn test_show_pin_err_response_failed() {
    let e = show_pin_err_response(ShowPinError::Failed("pin is in failed state".into()));
    assert_eq!(e.status, 409);
    assert_eq!(e.code.as_str(), "INTERNAL_ERROR");
}

#[test]
fn test_show_pin_err_response_window_create() {
    let e = show_pin_err_response(ShowPinError::WindowCreate("webview creation failed".into()));
    assert_eq!(e.status, 500);
    assert_eq!(e.code.as_str(), "WINDOW_CREATE_FAILED");
}

#[test]
fn test_show_pin_err_response_internal() {
    let e = show_pin_err_response(ShowPinError::Internal("set_state failed".into()));
    assert_eq!(e.status, 500);
    assert_eq!(e.code.as_str(), "INTERNAL_ERROR");
}

#[test]
fn test_show_pin_error_display() {
    let e = ShowPinError::NotFound("pin_123".into());
    assert!(e.to_string().contains("pin not found"));
    assert!(e.to_string().contains("pin_123"));
    let e = ShowPinError::Failed("pin_456".into());
    assert!(e.to_string().contains("pin is failed"));
    assert!(e.to_string().contains("pin_456"));
    let e = ShowPinError::WindowCreate("webview init failed".into());
    assert!(e.to_string().contains("failed to create pin window"));
    assert!(e.to_string().contains("webview init failed"));
    let e = ShowPinError::Internal("disk full".into());
    assert!(e.to_string().contains("disk full"));
    assert_eq!(e.to_string(), "disk full");
}

// ---------- Host header and guard ----------

#[test]
fn test_is_localhost_host_valid() {
    assert!(is_localhost_host("127.0.0.1:4317"));
    assert!(is_localhost_host("localhost:4317"));
    assert!(is_localhost_host("LOCALHOST:4317"));
    assert!(is_localhost_host("127.0.0.1:9999"));
    assert!(is_localhost_host("localhost:80"));
    assert!(is_localhost_host("[::1]:4317"));
}

#[test]
fn test_is_localhost_host_no_port() {
    assert!(is_localhost_host("127.0.0.1"));
    assert!(is_localhost_host("localhost"));
    assert!(is_localhost_host("::1"));
}

#[test]
fn test_is_localhost_host_rejects_external() {
    assert!(!is_localhost_host("evil.com:4317"));
    assert!(!is_localhost_host("192.168.1.1:4317"));
    assert!(!is_localhost_host("example.com"));
    assert!(!is_localhost_host(""));
}

#[test]
fn test_is_localhost_host_rejects_bad_port_syntax() {
    assert!(!is_localhost_host("127.0.0.1:abc"));
    assert!(!is_localhost_host("127.0.0.1:"));
    assert!(!is_localhost_host("localhost:99999"));
    assert!(!is_localhost_host("[::1]:abc"));
    assert!(!is_localhost_host("[::1]:"));
    assert!(!is_localhost_host("[::1]junk"));
    assert!(!is_localhost_host("[::1"));
}

#[test]
fn is_localhost_host_more_edges() {
    assert!(is_localhost_host("[::1]"));
    assert!(is_localhost_host("localhost:65535"));
    assert!(is_localhost_host("localhost:+80"));
    assert!(!is_localhost_host("localhost:65536"));
    assert!(!is_localhost_host("a:b:c"));
    assert!(!is_localhost_host("local]host"));
    assert!(!is_localhost_host("[evil.com]:80"));
}

fn guard_status(host: &str, is_post: bool, ct: &str) -> u16 {
    match request_guard(host, is_post, ct) {
        None => 200,
        Some(e) => e.status,
    }
}

#[test]
fn test_csrf_guard_allows_json_post() {
    assert_eq!(guard_status("127.0.0.1:4317", true, "application/json"), 200);
}

#[test]
fn test_csrf_guard_allows_json_post_localhost() {
    assert_eq!(guard_status("localhost:4317", true, "application/json"), 200);
}

#[test]
fn test_csrf_guard_allows_custom_port() {
    assert_eq!(guard_status("127.0.0.1:9999", true, "application/json"), 200);
}

#[test]
fn test_csrf_guard_allows_json_with_charset() {
    assert_eq!(guard_status("127.0.0.1:4317", true, "application/json; charset=utf-8"), 200);
}

#[test]
fn test_csrf_guard_rejects_text_plain() {
    assert_eq!(guard_status("127.0.0.1:4317", true, "text/plain"), 415);
}

#[test]
fn test_csrf_guard_rejects_missing_content_type() {
    assert_eq!(guard_status("127.0.0.1:4317", true, ""), 415);
}

#[test]
fn test_csrf_guard_rejects_bad_host_post() {
    assert_eq!(guard_status("evil.com:4317", true, "application/json"), 403);
}

#[test]
fn test_csrf_guard_rejects_bad_host_get() {
    assert_eq!(guard_status("evil.com", false, ""), 403);
}

#[test]
fn test_csrf_guard_allows_get_good_host() {
    assert_eq!(guard_status("127.0.0.1:4317", false, ""), 200);
}

#[test]
fn test_csrf_guard_allows_get_localhost_custom_port() {
    assert_eq!(guard_status("localhost:8080", false, ""), 200);
}

#[test]
fn test_csrf_guard_rejects_empty_host() {
    assert_eq!(guard_status("", true, "application/json"), 403);
}

#[test]
fn test_csrf_guard_rejects_empty_host_get() {
    assert_eq!(guard_status("", false, ""), 403);
}

#[test]
fn guard_answers_are_exact() {
    let e = request_guard("evil.com", false, "").unwrap();
    assert_eq!(e.code, PinErrorCode::InternalError);
    assert_eq!(e.message, "host not allowed");
    let e = request_guard("localhost", true, "text/plain").unwrap();
    assert_eq!(e.code, PinErrorCode::InvalidJson);
    assert_eq!(e.message, "Content-Type must be application/json");
}

// ---------- creating Pins ----------

#[test]
fn admit_new_pin_checks_document_and_count() {
    assert!(admit_new_pin(&doc("ok"), 0).is_ok());
    assert!(admit_new_pin(&doc("ok"), 499).is_ok());
    let e = admit_new_pin(&doc("ok"), 500).unwrap_err();
    assert_eq!(e.status, 409);
    assert_eq!(e.message, "pin count limit reached (max 500)");
    let mut bad = doc("ok");
    bad.version = 2;
    let e = admit_new_pin(&bad, 0).unwrap_err();
    assert_eq!(e.status, 400);
    assert_eq!(e.code, PinErrorCode::InvalidPinDocument);
}

#[test]
fn image_copy_candidates() {
    assert_eq!(image_copy_extension("/abs/pic.PNG"), Some("png".to_string()));
    assert_eq!(image_copy_extension("/abs/pic.jpeg"), Some("jpeg".to_string()));
    assert_eq!(image_copy_extension("relative/pic.png"), None);
    assert_eq!(image_copy_extension("/abs/pic.bmp"), None);
    assert_eq!(image_copy_extension("/abs/pic"), None);

    let mut d = doc("t");
    d.blocks = vec![
        PinBlock::Markdown(MarkdownBlock { content: "x".to_string() }),
        PinBlock::Image(ImageBlock { path: "/a/b.gif".to_string(), caption: Some("c".to_string()) }),
        PinBlock::Image(ImageBlock { path: "rel.png".to_string(), caption: None }),
        PinBlock::Status(StatusBlock { level: None, text: "s".to_string() }),
        PinBlock::Image(ImageBlock { path: "/a/c.WEBP".to_string(), caption: None }),
    ];
    let plan = image_copy_plan(&d);
    assert_eq!(plan, vec![(1, "gif".to_string()), (4, "webp".to_string())]);
    set_image_path(&mut d, 1, "/store/image_1_2_3.gif".to_string());
    match &d.blocks[1] {
        PinBlock::Image(img) => {
            assert_eq!(img.path, "/store/image_1_2_3.gif");
            assert_eq!(img.caption, Some("c".to_string()));
        }
        other => panic!("expected image, got {:?}", other),
    }
    assert_eq!(d.blocks.len(), 5);
}

// ---------- hide ----------

#[test]
fn hide_request_and_answers() {
    let reg = registry(&[("pin_a", PinState::Visible), ("pin_b", PinState::Hidden)]);
    assert_eq!(hide_request_begin(&reg, "pin_a").unwrap(), false);
    assert_eq!(hide_request_begin(&reg, "pin_b").unwrap(), true);
    let e = hide_request_begin(&reg, "pin_x").unwrap_err();
    assert_eq!(e.status, 404);
    assert_eq!(e.message, "pin not found: pin_x");
    let e = destroy_failed_response("pin_a", "boom");
    assert_eq!(e.status, 500);
    assert_eq!(e.message, "failed to destroy window for pin_a: boom");
    assert_eq!(hide_all_response(&vec![]), (200, None));
    let (status, line) = hide_all_response(&vec!["pin_1".to_string(), "pin_2".to_string()]);
    assert_eq!(status, 200);
    assert_eq!(line.unwrap(), "some pins could not be hidden: pin_1, pin_2");
}

// ---------- window permissions ----------

#[test]
fn test_manager_label_check() {
    assert!(is_manager_label("manager"));
    assert!(!is_manager_label("pin_123_000001"));
    assert!(!is_manager_label("other"));
    assert!(!is_manager_label(""));
}

#[test]
fn test_pin_owner_label_check() {
    assert!(is_pin_owner_label("pin_123_000001", "pin_123_000001"));
    assert!(!is_pin_owner_label("manager", "pin_123_000001"));
    assert!(!is_pin_owner_label("pin_123_000001", "pin_456_000001"));
    assert!(!is_pin_owner_label("pinx_123_000001", "pinx_123_000001"));
}

#[test]
fn test_open_external_url_requires_pin_window() {
    assert!(is_pin_window_label("pin_123_000001"));
    assert!(!is_pin_window_label("manager"));
    assert!(!is_pin_window_label("other"));
}

#[test]
fn test_get_pin_document_permission_check() {
    assert!(can_read_pin_document("manager", "pin_123_000001"));
    assert!(can_read_pin_document("pin_123_000001", "pin_123_000001"));
    assert!(!can_read_pin_document("pin_123_000001", "pin_456_000001"));
    assert!(!can_read_pin_document("settings", "pin_123_000001"));
    assert!(!can_read_pin_document("plugin", "pin_123_000001"));
    assert!(!can_read_pin_document("", "pin_123_000001"));
}

#[test]
fn requirement_messages() {
    assert!(require_manager("manager").is_ok());
    assert_eq!(
        require_manager("pin_1").unwrap_err(),
        "forbidden: only manager window can call this command"
    );
    assert!(require_pin_owner("pin_1", "pin_1").is_ok());
    assert_eq!(
        require_pin_owner("pin_1", "pin_2").unwrap_err(),
        "forbidden: window 'pin_1' cannot operate on pin 'pin_2'"
    );
}

#[test]
fn external_url_schemes() {
    assert!(check_external_url("pin_1", "https://example.com").is_ok());
    assert!(check_external_url("pin_1", "HTTP://example.com").is_ok());
    assert!(check_external_url("pin_1", "mailto:a@b.c").is_ok());
    assert_eq!(
        check_external_url("pin_1", "file:///etc/passwd").unwrap_err(),
        "unsupported url scheme: file"
    );
    assert_eq!(
        check_external_url("pin_1", "JavaScript:alert(1)").unwrap_err(),
        "unsupported url scheme: javascript"
    );
    assert_eq!(
        check_external_url("manager", "https://example.com").unwrap_err(),
        "forbidden: only pin windows can open external urls"
    );
    assert_eq!(check_external_url("pin_1", "nocolon").unwrap_err(), "unsupported url scheme: nocolon");
    assert!(scheme_verdict("https").is_ok());
    assert!(scheme_verdict("HTTPS").is_err());
}

#[test]
fn readable_documents() {
    let reg = registry(&[("pin_a", PinState::Visible)]);
    assert!(readable_document(&reg, "manager", "pin_a").is_some());
    assert!(readable_document(&reg, "pin_a", "pin_a").is_some());
    assert!(readable_document(&reg, "pin_b", "pin_a").is_none());
    assert!(readable_document(&reg, "manager", "pin_zz").is_none());
}

#[test]
fn close_hide_delete_checks() {
    let reg = registry(&[("pin_a", PinState::Visible), ("pin_b", PinState::Hidden)]);
    assert_eq!(close_pin_begin(&reg, "pin_a", "pin_a").unwrap(), false);
    assert_eq!(close_pin_begin(&reg, "pin_b", "pin_b").unwrap(), true);
    assert!(close_pin_begin(&reg, "manager", "pin_a").is_err());
    assert_eq!(close_pin_begin(&reg, "pin_zz", "pin_zz").unwrap_err(), "pin not found: pin_zz");
    assert_eq!(hide_pin_begin(&reg, "manager", "pin_b").unwrap(), true);
    assert_eq!(hide_pin_begin(&reg, "manager", "pin_a").unwrap(), false);
    assert!(hide_pin_begin(&reg, "pin_a", "pin_a").is_err());
    assert!(delete_pin_begin(&reg, "manager", "pin_a").is_ok());
    assert_eq!(delete_pin_begin(&reg, "manager", "manager").unwrap_err(), "pin not found: manager");
    assert_eq!(state_after_failed_destroy(true), PinState::Visible);
    assert_eq!(state_after_failed_destroy(false), PinState::Hidden);
    assert!(hide_all_outcome(&vec![]).is_ok());
    assert_eq!(
        hide_all_outcome(&vec!["pin_1".to_string(), "pin_2".to_string()]).unwrap_err(),
        "failed to hide 2 pin(s): pin_1, pin_2"
    );
}

#[test]
fn remember_size_only_from_own_window() {
    let mut reg = registry(&[("pin_a", PinState::Visible)]);
    let size = WindowSizeBits { width_bits: 1, height_bits: 2 };
    assert!(remember_pin_size(&mut reg, "pin_b", "pin_a", size).is_err());
    assert!(reg.get_meta("pin_a").unwrap().window_size.is_none());
    assert!(remember_pin_size(&mut reg, "pin_a", "pin_a", size).is_ok());
    assert_eq!(reg.get_meta("pin_a").unwrap().window_size, Some(size));
}

#[test]
fn destroyed_windows() {
    let mut reg = registry(&[("pin_a", PinState::Visible), ("pin_b", PinState::Hidden)]);
    assert!(matches!(window_destroyed(&mut reg, "manager", "t".to_string()), DestroyedOutcome::Manager));
    reg.mark_recreating("pin_a");
    assert!(matches!(window_destroyed(&mut reg, "pin_a", "t".to_string()), DestroyedOutcome::Rebuilt));
    assert!(!reg.is_recreating("pin_a"));
    assert_eq!(reg.get_meta("pin_a").unwrap().state, PinState::Visible);
    match window_destroyed(&mut reg, "pin_a", "t2".to_string()) {
        DestroyedOutcome::Hidden(s, _) => assert_eq!(s, PinState::Visible),
        other => panic!("expected Hidden, got {:?}", other),
    }
    assert_eq!(reg.get_meta("pin_a").unwrap().state, PinState::Hidden);
    assert_eq!(reg.get_meta("pin_a").unwrap().updated_at, "t2");
    assert!(matches!(window_destroyed(&mut reg, "pin_b", "t".to_string()), DestroyedOutcome::Unchanged));
    assert!(matches!(window_destroyed(&mut reg, "pin_zz", "t".to_string()), DestroyedOutcome::Unchanged));
}

// ---------- showing ----------

#[test]
fn show_pin_begin_refuses_failed_and_missing() {
    let reg = registry(&[("pin_a", PinState::Hidden), ("pin_f", PinState::Failed)]);
    assert_eq!(show_pin_begin(&reg, "pin_a").unwrap(), PinState::Hidden);
    match show_pin_begin(&reg, "pin_f") {
        Err(ShowPinError::Failed(m)) => assert_eq!(m, "pin_f"),
        other => panic!("expected Failed, got {:?}", other),
    }
    match show_pin_begin(&reg, "pin_x") {
        Err(ShowPinError::NotFound(m)) => assert_eq!(m, "pin_x"),
        other => panic!("expected NotFound, got {:?}", other),
    }
}

#[test]
fn existing_window_becomes_visible() {
    let mut reg = registry(&[("pin_a", PinState::Hidden), ("pin_v", PinState::Visible)]);
    let undo = existing_window_shown(&mut reg, "pin_a", "now".to_string());
    assert_eq!(undo.map(|u| u.0), Some(PinState::Hidden));
    assert_eq!(reg.get_meta("pin_a").unwrap().state, PinState::Visible);
    assert!(existing_window_shown(&mut reg, "pin_v", "now".to_string()).is_none());
}

#[test]
fn rebuild_marks_and_clears() {
    let mut reg = registry(&[("pin_a", PinState::Hidden)]);
    let d = prepare_rebuild(&mut reg, "pin_a", true).unwrap();
    assert_eq!(d.title, "pin_a");
    assert!(reg.is_recreating("pin_a"));
    let e = rebuild_failed(&mut reg, "pin_a", true, "no webview".to_string());
    assert!(!reg.is_recreating("pin_a"));
    assert_eq!(e.to_string(), "failed to create pin window: no webview");
    let _ = prepare_rebuild(&mut reg, "pin_a", true).unwrap();
    let e = mark_visible_failed(&mut reg, "pin_a", true, "disk".to_string());
    assert!(!reg.is_recreating("pin_a"));
    assert_eq!(e.to_string(), "disk");
    match prepare_rebuild(&mut reg, "pin_x", true) {
        Err(ShowPinError::NotFound(m)) => assert_eq!(m, "doc missing for pin_x"),
        other => panic!("expected NotFound, got {:?}", other.map(|d| d.title)),
    }
    assert!(!reg.is_recreating("pin_x"));
}

#[test]
fn background_creation_outcomes() {
    // hidden meanwhile: cancelled before creating
    let mut reg = registry(&[("pin_a", PinState::Hidden)]);
    reg.mark_recreating("pin_a");
    assert!(!async_create_begin(&mut reg, "pin_a"));
    assert!(!reg.is_recreating("pin_a"));

    // created and still visible
    let mut reg = registry(&[("pin_a", PinState::Visible)]);
    assert!(async_create_begin(&mut reg, "pin_a"));
    let out = async_create_finished(&mut reg, "pin_a", false, Ok(()), true, "t".to_string());
    assert!(matches!(out, AsyncCreateOutcome::Ready));
    assert_eq!(reg.get_meta("pin_a").unwrap().updated_at, "t");

    // creation failed: back to hidden
    let mut reg = registry(&[("pin_a", PinState::Visible)]);
    reg.mark_recreating("pin_a");
    let out = async_create_finished(&mut reg, "pin_a", true, Err("boom".to_string()), false, "t".to_string());
    match out {
        AsyncCreateOutcome::Failed(m) => assert_eq!(m, "boom"),
        other => panic!("expected Failed, got {:?}", other),
    }
    assert_eq!(reg.get_meta("pin_a").unwrap().state, PinState::Hidden);
    assert!(!reg.is_recreating("pin_a"));

    // creation failed but a window exists and the pin is visible: ready
    let mut reg = registry(&[("pin_a", PinState::Visible)]);
    let out = async_create_finished(&mut reg, "pin_a", false, Err("dup".to_string()), true, "t".to_string());
    assert!(matches!(out, AsyncCreateOutcome::Ready));
    assert_eq!(reg.get_meta("pin_a").unwrap().state, PinState::Visible);

    // created, but hidden meanwhile: cancelled, state untouched
    let mut reg = registry(&[("pin_a", PinState::Hidden)]);
    reg.mark_recreating("pin_a");
    let out = async_create_finished(&mut reg, "pin_a", true, Ok(()), true, "t".to_string());
    assert!(matches!(out, AsyncCreateOutcome::Cancelled));
    assert_eq!(reg.get_meta("pin_a").unwrap().state, PinState::Hidden);
    assert!(!reg.is_recreating("pin_a"));
}

#[test]
fn visible_ids_for_hide_all() {
    let reg = registry(&[
        ("pin_a", PinState::Visible),
        ("pin_b", PinState::Hidden),
        ("pin_c", PinState::Visible),
        ("pin_d", PinState::Failed),
    ]);
    assert_eq!(visible_pin_ids(&reg), vec!["pin_c".to_string(), "pin_a".to_string()]);
}

#[test]
fn hide_all_run_goes_on_past_failures() {
    let ids = vec!["pin_a".to_string(), "pin_b".to_string(), "pin_c".to_string()];
    let mut run = HideAllRun::start(ids);
    // pin_a: the window does not close; it is noted and the run moves on
    assert_eq!(run.next_pin(), Some("pin_a".to_string()));
    assert!(!run.window_closed(Err("busy".to_string())));
    // pin_b: the window closes but saving it hidden fails
    assert_eq!(run.next_pin(), Some("pin_b".to_string()));
    assert!(run.window_closed(Ok(())));
    assert_eq!(run.next_pin(), None);
    run.saved(Err("disk".to_string()));
    // pin_c: both steps work
    assert_eq!(run.next_pin(), Some("pin_c".to_string()));
    assert!(run.window_closed(Ok(())));
    run.saved(Ok(()));
    assert_eq!(run.next_pin(), None);
    assert_eq!(run.failed(), vec!["pin_a".to_string(), "pin_b".to_string()]);
    // nothing waits any more: further events change nothing
    assert!(!run.window_closed(Ok(())));
    run.saved(Err("late".to_string()));
    assert_eq!(run.failed(), vec!["pin_a".to_string(), "pin_b".to_string()]);
}

#[test]
fn hide_all_run_without_pins() {
    let run = HideAllRun::start(vec![]);
    assert_eq!(run.next_pin(), None);
    assert!(run.failed().is_empty());
}

#[test]
fn new_pin_window_failure_takes_the_pin_out() {
    let mut reg = registry(&[("pin_a", PinState::Visible), ("pin_b", PinState::Visible)]);
    assert!(matches!(new_pin_window_done(&mut reg, "pin_b", Ok(())), NewPinStep::Created));
    assert_eq!(reg.len(), 2);
    match new_pin_window_done(&mut reg, "pin_b", Err("no display".to_string())) {
        NewPinStep::RolledBack { removed, answer } => {
            assert_eq!(removed.unwrap().meta.pin_id, "pin_b");
            assert_eq!(answer.status, 500);
            assert_eq!(answer.code, PinErrorCode::WindowCreateFailed);
            assert_eq!(answer.message, "no display");
        }
        NewPinStep::Created => panic!("expected a rollback"),
    }
    assert!(reg.get("pin_b").is_none());
    assert_eq!(reg.len(), 1);
}

#[test]
fn sync_show_steps() {
    // the window could not be made: the rebuild mark is cleared
    let mut reg = registry(&[("pin_a", PinState::Hidden)]);
    reg.mark_recreating("pin_a");
    match sync_window_created(&mut reg, "pin_a", true, Err("boom".to_string()), "t1".to_string()) {
        SyncShowAction::Fail(ShowPinError::WindowCreate(m)) => assert_eq!(m, "boom"),
        _ => panic!("expected a window failure"),
    }
    assert!(!reg.is_recreating("pin_a"));
    assert_eq!(reg.get_meta("pin_a").unwrap().state, PinState::Hidden);

    // the window is up: visible in memory, then saved
    let (s, u) = match sync_window_created(&mut reg, "pin_a", false, Ok(()), "t2".to_string()) {
        SyncShowAction::Save(s, u) => (s, u),
        _ => panic!("expected a save"),
    };
    assert_eq!(s, PinState::Hidden);
    assert_eq!(reg.get_meta("pin_a").unwrap().state, PinState::Visible);
    assert_eq!(reg.get_meta("pin_a").unwrap().updated_at, "t2");
    // a failed write puts the old state back
    let e = sync_show_saved(&mut reg, "pin_a", s, u.clone(), Err("disk".to_string())).unwrap_err();
    assert_eq!(e.to_string(), "failed to save state.json: disk");
    assert_eq!(reg.get_meta("pin_a").unwrap().state, PinState::Hidden);
    assert_eq!(reg.get_meta("pin_a").unwrap().updated_at, u);
    // a successful write keeps it visible
    let (s, u) = match sync_window_created(&mut reg, "pin_a", false, Ok(()), "t3".to_string()) {
        SyncShowAction::Save(s, u) => (s, u),
        _ => panic!("expected a save"),
    };
    assert!(sync_show_saved(&mut reg, "pin_a", s, u, Ok(())).is_ok());
    assert_eq!(reg.get_meta("pin_a").unwrap().state, PinState::Visible);

    // the Pin vanished meanwhile: the new window is destroyed
    match sync_window_created(&mut reg, "pin_x", false, Ok(()), "t4".to_string()) {
        SyncShowAction::DestroyThenFail(ShowPinError::Internal(m)) => assert_eq!(m, "pin not found: pin_x"),
        _ => panic!("expected destroy and fail"),
    }
}

// ---------- windows ----------

#[test]
fn window_setup_decisions() {
    assert_eq!(pin_window_url("pin_1_000001"), "index.html?pinId=pin_1_000001");
    let mut d = doc("t");
    assert!(always_on_top_of(&d));
    assert_eq!(explicit_position(&d), None);
    d.window = Some(agent_pin::pin::PinWindowConfig {
        width: None,
        height: None,
        x: Some(10),
        y: None,
        always_on_top: Some(false),
    });
    assert!(!always_on_top_of(&d));
    assert_eq!(explicit_position(&d), None);
    d.window.as_mut().unwrap().y = Some(-20);
    assert_eq!(explicit_position(&d), Some((10, -20)));

    let mut reg = registry(&[("pin_a", PinState::Visible)]);
    assert_eq!(fit_height_gate(&reg, "pin_a", true), Ok(true));
    assert_eq!(fit_height_gate(&reg, "pin_a", false).unwrap_err(), "window not found: pin_a");
    assert_eq!(
        fit_height_gate(&reg, "manager", true).unwrap_err(),
        "fit_pin_window_height can only be called on pin windows, got label: manager"
    );
    reg.remember_window_size("pin_a", WindowSizeBits { width_bits: 1, height_bits: 1 }).unwrap();
    assert_eq!(fit_height_gate(&reg, "pin_a", true), Ok(false));
}
