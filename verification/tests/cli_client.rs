use agent_pin::cli::{
    build_pin_doc, build_source, build_window_config, image_paths_to_copy, RawBlock, check_input_size, check_status_level,
    ensure_ok_response, error_report, home_dir_required, image_source_path, image_store_extension,
    input_base_dir, json_flag_requested, list_lines, pin_error_code, precheck_document, strip_bom,
    validate_pin_id, CliError, CommonArgs, ErrorReport, ImageCopyTracker, ListedPin,
    ResponseSummary,
};
use agent_pin::client::{
    client_endpoint, error_from_body, parse_error_body, prefix_within_bytes, status_error,
    transport_error, validate_endpoint,
};
use agent_pin::pin::{MarkdownBlock, PinBlock, PinErrorCode, PinHeight};

fn empty_common() -> CommonArgs {
    CommonArgs {
        width: None,
        height: None,
        no_always_on_top: false,
        agent: None,
        workspace: None,
        task: None,
    }
}

fn args(v: &[&str]) -> Vec<String> {
    v.iter().map(|s| s.to_string()).collect()
}

// ---------- arguments ----------

#[test]
fn json_flag_requested_detects_global_json() {
    assert!(json_flag_requested(&args(&["agent-pin", "--json", "health"])));
    assert!(json_flag_requested(&args(&[
        "agent-pin", "markdown", "--title", "T", "--json", "--text", "x"
    ])));
    assert!(!json_flag_requested(&args(&["agent-pin", "health"])));
}

#[test]
fn json_flag_after_double_dash_is_not_a_flag() {
    assert!(!json_flag_requested(&args(&["agent-pin", "--", "--json"])));
    assert!(!json_flag_requested(&args(&[])));
}

#[test]
fn ensure_ok_response_preserves_server_error() {
    let resp = ResponseSummary {
        ok: Some(false),
        has_error: true,
        error_code: Some("INTERNAL_ERROR".to_string()),
        error_message: Some("some pins could not be hidden: pin_1".to_string()),
        text: "{}".to_string(),
    };
    let err = ensure_ok_response(&resp).unwrap_err();
    assert_eq!(err.code, "INTERNAL_ERROR");
    assert!(err.message.contains("pin_1"));
}

#[test]
fn ensure_ok_response_other_shapes() {
    let ok = ResponseSummary { ok: Some(true), has_error: false, error_code: None, error_message: None, text: String::new() };
    assert!(ensure_ok_response(&ok).is_ok());
    let bare_error = ResponseSummary { ok: None, has_error: true, error_code: None, error_message: None, text: String::new() };
    let e = ensure_ok_response(&bare_error).unwrap_err();
    assert_eq!(e.code, "UNKNOWN");
    assert_eq!(e.message, "响应 ok=false 但缺少 error.message");
    let odd = ResponseSummary { ok: None, has_error: false, error_code: None, error_message: None, text: "[1]".to_string() };
    let e = ensure_ok_response(&odd).unwrap_err();
    assert_eq!(e.code, "INVALID_RESPONSE");
    assert_eq!(e.message, "服务端响应格式异常: [1]");
}

// ---------- validate_pin_id ----------

#[test]
fn validate_pin_id_rejects_empty() {
    assert!(validate_pin_id("").is_err());
}

#[test]
fn validate_pin_id_accepts_standard_format() {
    assert!(validate_pin_id("pin_1700000000000_abc123").is_ok());
}

#[test]
fn validate_pin_id_accepts_alphanumeric_underscore_hyphen() {
    assert!(validate_pin_id("pin-ABC_123-xyz").is_ok());
    assert!(validate_pin_id("a").is_ok());
    assert!(validate_pin_id("12345").is_ok());
}

#[test]
fn validate_pin_id_rejects_hash() {
    assert!(validate_pin_id("pin_123#frag").is_err());
}

#[test]
fn validate_pin_id_rejects_question() {
    assert!(validate_pin_id("pin_123?x=1").is_err());
}

#[test]
fn validate_pin_id_rejects_slash() {
    assert!(validate_pin_id("pin_123/abc").is_err());
    assert!(validate_pin_id("pin_123\\abc").is_err());
}

#[test]
fn validate_pin_id_rejects_dot_path_traversal() {
    assert!(validate_pin_id("../etc/passwd").is_err());
    assert!(validate_pin_id("pin_.._abc").is_err());
}

#[test]
fn validate_pin_id_rejects_spaces_and_special() {
    assert!(validate_pin_id("pin 123").is_err());
    assert!(validate_pin_id("pin@123").is_err());
    assert!(validate_pin_id("pin&123").is_err());
}

#[test]
fn validate_pin_id_rejects_too_long() {
    let long_id = "a".repeat(129);
    assert!(validate_pin_id(&long_id).is_err());
    let at_limit = "a".repeat(128);
    assert!(validate_pin_id(&at_limit).is_ok());
}

#[test]
fn validate_pin_id_rejects_manager_reserved() {
    assert!(validate_pin_id("manager").is_err());
}

#[test]
fn cli_pin_id_messages() {
    let e = validate_pin_id("").unwrap_err();
    assert_eq!(e.code, "INVALID_INPUT");
    assert_eq!(e.message, "pin_id 不能为空");
    assert_eq!(
        validate_pin_id(&"a".repeat(130)).unwrap_err().message,
        "pin_id 过长（最大 128 字符）: 130 字符"
    );
    assert_eq!(validate_pin_id("manager").unwrap_err().message, "pin_id 'manager' 是保留字，不能使用");
    assert_eq!(
        validate_pin_id("a#b").unwrap_err().message,
        "非法 pin_id（只允许字母、数字、下划线和连字符）: a#b"
    );
}

#[test]
fn input_base_dir_uses_json_file_directory() {
    let base = input_base_dir("/project/pins/pin.json", "/cwd");
    assert!(base.ends_with("pins"));
    assert_eq!(base, "/project/pins");
}

#[test]
fn input_base_dir_other_cases() {
    assert_eq!(input_base_dir("-", "/work"), "/work");
    assert_eq!(input_base_dir("pins/pin.json", "/work"), "/work/pins");
    assert_eq!(input_base_dir("pin.json", "/work"), "/work");
    assert!(agent_pin::cli::input_needs_cwd("-"));
    assert!(agent_pin::cli::input_needs_cwd("pins/pin.json"));
    assert!(!agent_pin::cli::input_needs_cwd("/abs/pin.json"));
}

// ---------- building documents ----------

#[test]
fn build_window_config_returns_none_when_no_args() {
    let common = empty_common();
    assert!(build_window_config(&common).is_none());
}

#[test]
fn build_window_config_with_width_only() {
    let mut common = empty_common();
    common.width = Some(500);
    let cfg = build_window_config(&common).expect("expected Some");
    assert_eq!(cfg.width, Some(500));
    assert!(cfg.height.is_none());
    assert!(cfg.always_on_top.is_none());
    assert!(cfg.x.is_none());
    assert!(cfg.y.is_none());
}

#[test]
fn build_window_config_with_no_always_on_top() {
    let mut common = empty_common();
    common.no_always_on_top = true;
    let cfg = build_window_config(&common).expect("expected Some");
    assert_eq!(cfg.always_on_top, Some(false));
}

#[test]
fn build_window_config_height_numeric_string() {
    let mut common = empty_common();
    common.height = Some("100".to_string());
    let cfg = build_window_config(&common).expect("expected Some");
    match cfg.height {
        Some(PinHeight::Number(n)) => assert_eq!(n, 100),
        other => panic!("expected Number(100), got {:?}", other),
    }
}

#[test]
fn build_window_config_height_auto_string() {
    let mut common = empty_common();
    common.height = Some("auto".to_string());
    let cfg = build_window_config(&common).expect("expected Some");
    match cfg.height {
        Some(PinHeight::Auto(s)) => assert_eq!(s, "auto"),
        other => panic!("expected Auto, got {:?}", other),
    }
}

#[test]
fn build_window_config_height_too_big_stays_text() {
    let mut common = empty_common();
    common.height = Some("4294967296".to_string());
    match build_window_config(&common).unwrap().height {
        Some(PinHeight::Auto(s)) => assert_eq!(s, "4294967296"),
        other => panic!("expected Auto, got {:?}", other),
    }
    common.height = Some("4294967295".to_string());
    match build_window_config(&common).unwrap().height {
        Some(PinHeight::Number(n)) => assert_eq!(n, u32::MAX),
        other => panic!("expected Number, got {:?}", other),
    }
}

#[test]
fn build_source_returns_none_when_no_args() {
    let common = empty_common();
    assert!(build_source(&common).is_none());
}

#[test]
fn build_source_with_agent_only() {
    let mut common = empty_common();
    common.agent = Some("helper-agent".to_string());
    let src = build_source(&common).expect("expected Some");
    assert_eq!(src.agent.as_deref(), Some("helper-agent"));
    assert!(src.workspace.is_none());
    assert!(src.task.is_none());
    assert!(src.conversation_id.is_none());
}

#[test]
fn build_source_with_all_fields() {
    let mut common = empty_common();
    common.agent = Some("codex".to_string());
    common.workspace = Some("/repo".to_string());
    common.task = Some("review".to_string());
    let src = build_source(&common).expect("expected Some");
    assert_eq!(src.agent.as_deref(), Some("codex"));
    assert_eq!(src.workspace.as_deref(), Some("/repo"));
    assert_eq!(src.task.as_deref(), Some("review"));
    assert!(src.conversation_id.is_none());
}

#[test]
fn build_pin_doc_basic_markdown() {
    let common = empty_common();
    let doc = build_pin_doc(
        "Test Title",
        vec![PinBlock::Markdown(MarkdownBlock {
            content: "## Hello".to_string(),
        })],
        &common,
    );
    assert_eq!(doc.version, 1);
    assert_eq!(doc.title, "Test Title");
    assert_eq!(doc.blocks.len(), 1);
    assert!(doc.window.is_none());
    assert!(doc.source.is_none());
    assert!(doc.created_at.is_none());
}

#[test]
fn build_pin_doc_includes_window_when_args_present() {
    let mut common = empty_common();
    common.width = Some(420);
    let doc = build_pin_doc(
        "T",
        vec![PinBlock::Markdown(MarkdownBlock {
            content: "x".to_string(),
        })],
        &common,
    );
    assert!(doc.window.is_some());
    assert_eq!(doc.window.as_ref().unwrap().width, Some(420));
}

#[test]
fn status_level_and_document_checks() {
    assert!(check_status_level(&None).is_ok());
    assert!(check_status_level(&Some("warning".to_string())).is_ok());
    let e = check_status_level(&Some("fatal".to_string())).unwrap_err();
    assert_eq!(e.code, "INVALID_INPUT");
    assert_eq!(e.message, "非法 --level 'fatal'；必须是 info、success、warning、error 之一");
    assert_eq!(pin_error_code(PinErrorCode::ImageUnsupported), "IMAGE_UNSUPPORTED");
    let mut common = empty_common();
    common.width = Some(10);
    let doc = build_pin_doc("T", vec![PinBlock::Markdown(MarkdownBlock { content: "x".to_string() })], &common);
    let e = precheck_document(&doc).unwrap_err();
    assert_eq!(e.code, "INVALID_PIN_DOCUMENT");
    assert!(e.message.starts_with("非法 PinDocument: "));
    common.width = None;
    let doc = build_pin_doc("T", vec![PinBlock::Markdown(MarkdownBlock { content: "x".to_string() })], &common);
    assert!(precheck_document(&doc).is_ok());
}

// ---------- images and input ----------

#[test]
fn image_paths_and_extensions() {
    assert_eq!(image_source_path("render.png", "/base"), "/base/render.png");
    assert_eq!(image_source_path("/abs/render.png", "/base"), "/abs/render.png");
    assert_eq!(image_store_extension("/a/b.JPG").unwrap(), "jpg");
    let e = image_store_extension("/a/b").unwrap_err();
    assert_eq!(e.code, "IMAGE_UNSUPPORTED");
    assert_eq!(e.message, "图片路径必须带扩展名：png、jpg、jpeg、webp 或 gif");
    let e = image_store_extension("/a/render.bmp").unwrap_err();
    assert_eq!(e.code, "IMAGE_UNSUPPORTED");
    assert_eq!(
        e.message,
        format!("不支持的图片格式 'bmp'；支持格式为 {:?}", ["png", "jpg", "jpeg", "webp", "gif"])
    );
    assert_eq!(home_dir_required(Some("/h".to_string())).unwrap(), "/h");
    assert_eq!(home_dir_required(None).unwrap_err().code, "HOME_NOT_FOUND");
}

#[test]
fn image_copy_tracker_drains_new_copies() {
    let mut t = ImageCopyTracker::new();
    t.record(Some("/store/a.png".to_string()));
    t.record(None);
    t.record(Some("/store/b.png".to_string()));
    assert_eq!(t.drain(), vec!["/store/a.png".to_string(), "/store/b.png".to_string()]);
    assert!(t.drain().is_empty());
}

#[test]
fn input_checks() {
    assert!(check_input_size(2 * 1024 * 1024, None).is_ok());
    let e = check_input_size(2 * 1024 * 1024 + 1, None).unwrap_err();
    assert_eq!(e.message, "stdin 过大（最大 2097152 字节）");
    let e = check_input_size(3 * 1024 * 1024, Some("a.md")).unwrap_err();
    assert_eq!(e.message, "文件 'a.md' 过大（最大 2097152 字节）");
    assert_eq!(strip_bom("\u{feff}hello world"), "hello world");
    assert_eq!(strip_bom("\u{feff}\u{feff}x\u{feff}"), "x\u{feff}");
    assert_eq!(strip_bom("plain content without bom"), "plain content without bom");
}

// ---------- output ----------

#[test]
fn error_reports() {
    let nr = CliError::not_running("connection refused".to_string());
    match error_report(&nr, true, false) {
        ErrorReport::Json { code, message } => {
            assert_eq!(code, "NOT_RUNNING");
            assert_eq!(message, "connection refused");
        }
        other => panic!("expected JSON, got {:?}", other),
    }
    match error_report(&nr, false, true) {
        ErrorReport::Stdout(lines) => assert_eq!(lines, vec!["Agent Pin 未运行。", "请先启动桌面应用。"]),
        other => panic!("expected stdout, got {:?}", other),
    }
    assert!(matches!(error_report(&nr, false, false), ErrorReport::Stderr(_)));
    let other = CliError::invalid_input("bad".to_string());
    match error_report(&other, false, false) {
        ErrorReport::Stderr(lines) => assert_eq!(lines, vec!["错误: bad"]),
        o => panic!("expected stderr, got {:?}", o),
    }
    assert_eq!(other.to_string(), "bad");
}

#[test]
fn list_output() {
    assert_eq!(list_lines(&vec![]), vec!["还没有 Pin。"]);
    let pins = vec![
        ListedPin { pin_id: Some("pin_1".to_string()), title: Some("A".to_string()), state: Some("visible".to_string()) },
        ListedPin { pin_id: Some("pin_long".to_string()), title: None, state: None },
    ];
    assert_eq!(
        list_lines(&pins),
        vec!["pin_1     A  visible", "pin_long  (no title)  ?"]
    );
    let no_ids = vec![ListedPin { pin_id: None, title: Some("T".to_string()), state: Some("hidden".to_string()) }];
    assert_eq!(list_lines(&no_ids), vec![format!("{:<20}  T  hidden", "?")]);
}

// ---------- endpoint ----------

#[test]
fn validate_endpoint_accepts_default_local() {
    assert!(validate_endpoint("http://127.0.0.1:4317").is_ok());
}

#[test]
fn validate_endpoint_accepts_localhost() {
    assert!(validate_endpoint("http://localhost:4317").is_ok());
}

#[test]
fn validate_endpoint_accepts_ipv6_loopback() {
    assert!(validate_endpoint("http://[::1]:4317").is_ok());
}

#[test]
fn validate_endpoint_accepts_custom_port() {
    assert!(validate_endpoint("http://127.0.0.1:8080").is_ok());
    assert!(validate_endpoint("http://127.0.0.1:1").is_ok());
    assert!(validate_endpoint("http://127.0.0.1:65535").is_ok());
}

#[test]
fn validate_endpoint_accepts_uppercase_localhost() {
    assert!(validate_endpoint("http://LOCALHOST:4317").is_ok());
    assert!(validate_endpoint("http://Localhost:4317").is_ok());
}

#[test]
fn validate_endpoint_accepts_trailing_slash() {
    assert!(validate_endpoint("http://127.0.0.1:4317/").is_ok());
}

#[test]
fn validate_endpoint_rejects_https_scheme() {
    let err = validate_endpoint("https://127.0.0.1:4317").unwrap_err();
    assert!(err.message.contains("scheme 必须是 http"), "got: {}", err.message);
}

#[test]
fn validate_endpoint_rejects_other_schemes() {
    assert!(validate_endpoint("ftp://127.0.0.1:4317").is_err());
    assert!(validate_endpoint("file:///etc/passwd").is_err());
    assert!(validate_endpoint("ws://127.0.0.1:4317").is_err());
}

#[test]
fn validate_endpoint_rejects_non_loopback_host() {
    assert!(validate_endpoint("http://192.168.1.1:4317").is_err());
    assert!(validate_endpoint("http://10.0.0.1:4317").is_err());
    assert!(validate_endpoint("http://0.0.0.0:4317").is_err());
    assert!(validate_endpoint("http://evil.com:4317").is_err());
    assert!(validate_endpoint("http://example.com").is_err());
}

#[test]
fn validate_endpoint_rejects_userinfo_injection() {
    let err = validate_endpoint("http://127.0.0.1@evil.com:4317").unwrap_err();
    assert!(err.message.contains("userinfo"), "got: {}", err.message);
}

#[test]
fn validate_endpoint_rejects_path() {
    let err = validate_endpoint("http://127.0.0.1:4317/api/pins").unwrap_err();
    assert!(err.message.contains("path"), "got: {}", err.message);
}

#[test]
fn validate_endpoint_rejects_query() {
    let err = validate_endpoint("http://127.0.0.1:4317?x=1").unwrap_err();
    assert!(err.message.contains("query"), "got: {}", err.message);
}

#[test]
fn validate_endpoint_rejects_fragment() {
    let err = validate_endpoint("http://127.0.0.1:4317#frag").unwrap_err();
    assert!(err.message.contains("fragment"), "got: {}", err.message);
}

#[test]
fn validate_endpoint_rejects_invalid_url() {
    assert!(validate_endpoint("not a url").is_err());
    assert!(validate_endpoint("http://").is_err());
    assert!(validate_endpoint("://no-scheme").is_err());
}

#[test]
fn validate_endpoint_accepts_uppercase_scheme() {
    assert!(validate_endpoint("HTTP://127.0.0.1:4317").is_ok());
    assert!(validate_endpoint("Http://localhost:4317").is_ok());
}

#[test]
fn validate_endpoint_decimal_ip_normalized_to_loopback() {
    let result = validate_endpoint("http://2130706433:4317");
    assert!(result.is_ok(), "expected url crate to normalize decimal IP to 127.0.0.1, got: {:?}", result);
}

#[test]
fn endpoint_errors_all_carry_the_code() {
    let e = validate_endpoint("http://evil.com").unwrap_err();
    assert_eq!(e.code, "INVALID_ENDPOINT");
    assert_eq!(
        e.message,
        "endpoint host 'evil.com' 不允许：仅允许 127.0.0.1、localhost、::1（仅本地）"
    );
    assert!(validate_endpoint("not a url").unwrap_err().message.starts_with("endpoint URL 无效: "));
}

#[test]
fn client_endpoint_defaults_and_trims() {
    assert_eq!(client_endpoint(None).unwrap(), "http://127.0.0.1:4317");
    assert_eq!(client_endpoint(Some("http://localhost:9000/".to_string())).unwrap(), "http://localhost:9000");
    assert_eq!(client_endpoint(Some("http://evil.com".to_string())).unwrap_err().code, "INVALID_ENDPOINT");
}

// ---------- error bodies ----------

#[test]
fn parse_error_body_standard_error_response() {
    let raw = r#"{"ok":false,"error":{"code":"VALIDATION_ERROR","message":"title is empty"}}"#;
    let result = parse_error_body(400, raw);
    assert_eq!(result.code, "VALIDATION_ERROR");
    assert_eq!(result.message, "title is empty (HTTP 400)");
}

#[test]
fn parse_error_body_non_json_response() {
    let raw = "Internal Server Error";
    let result = parse_error_body(500, raw);
    assert_eq!(result.code, "UNKNOWN");
    assert!(result.message.contains("HTTP 500"), "got: {}", result.message);
    assert!(result.message.contains("Internal Server Error"), "got: {}", result.message);
}

#[test]
fn parse_error_body_missing_message_field() {
    let raw = r#"{"ok":false,"error":{"code":"INTERNAL"}}"#;
    let result = parse_error_body(500, raw);
    assert_eq!(result.code, "INTERNAL");
    assert!(result.message.contains("HTTP 500"), "got: {}", result.message);
    assert!(result.message.contains("原始响应:"), "got: {}", result.message);
}

#[test]
fn parse_error_body_missing_error_object() {
    let raw = r#"{"ok":false}"#;
    let result = parse_error_body(422, raw);
    assert_eq!(result.code, "UNKNOWN");
    assert!(result.message.contains("HTTP 422"), "got: {}", result.message);
}

#[test]
fn parse_error_body_empty_raw() {
    let result = parse_error_body(502, "");
    assert_eq!(result.code, "UNKNOWN");
    assert!(result.message.contains("HTTP 502"), "got: {}", result.message);
}

#[test]
fn parse_error_body_truncates_long_raw() {
    let raw = "X".repeat(1000);
    let result = parse_error_body(500, &raw);
    assert!(result.message.contains("HTTP 500"), "got: {}", result.message);
    assert!(!result.message.contains(&"X".repeat(600)), "raw content not truncated");
}

#[test]
fn parse_error_body_truncation_respects_char_boundary() {
    let chinese = "中".repeat(200);
    let result = parse_error_body(500, &chinese);
    assert!(result.message.contains("HTTP 500"), "got: {}", result.message);
}

#[test]
fn error_body_exact_forms() {
    let e = error_from_body(418, "raw", (None, None));
    assert_eq!(e.code, "UNKNOWN");
    assert_eq!(e.message, "HTTP 418 原始响应: raw");
    let e = error_from_body(400, "raw", (Some("X".to_string()), Some("m".to_string())));
    assert_eq!(e.code, "X");
    assert_eq!(e.message, "m (HTTP 400)");
    assert_eq!(prefix_within_bytes(&"中".repeat(200), 500), "中".repeat(166));
    assert_eq!(prefix_within_bytes("abc", 500), "abc");
    assert_eq!(prefix_within_bytes(&"X".repeat(1000), 500).len(), 500);
    let e = status_error(302, "ignored");
    assert_eq!(e.code, "REDIRECT_BLOCKED");
    assert_eq!(e.message, "服务端返回重定向（302），已因安全原因阻止");
    let e = status_error(404, r#"{"error":{"code":"PIN_NOT_FOUND","message":"pin not found: x"}}"#);
    assert_eq!(e.code, "PIN_NOT_FOUND");
    assert_eq!(e.message, "pin not found: x (HTTP 404)");
    let e = transport_error(true, "refused", "ConnectionFailed");
    assert_eq!(e.code, "NOT_RUNNING");
    let e = transport_error(false, "timed out", "Io");
    assert_eq!(e.code, "NETWORK_ERROR");
    assert_eq!(e.message, "网络错误: timed out (Io)");
}

#[test]
fn push_copies_only_image_blocks_with_paths() {
    let blocks = vec![
        RawBlock { block_type: Some("markdown".to_string()), path: None },
        RawBlock { block_type: Some("image".to_string()), path: Some("a.png".to_string()) },
        RawBlock { block_type: Some("image".to_string()), path: None },
        RawBlock { block_type: None, path: Some("b.png".to_string()) },
        RawBlock { block_type: Some("image".to_string()), path: Some("/c.gif".to_string()) },
    ];
    assert_eq!(
        image_paths_to_copy(&blocks),
        vec![(1, "a.png".to_string()), (4, "/c.gif".to_string())]
    );
}
