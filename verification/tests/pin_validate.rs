use agent_pin::pin::{
    validate, ImageBlock, MarkdownBlock, PinBlock, PinDocument, PinErrorCode, PinHeight, PinSource,
    PinWindowConfig, StatusBlock, MAX_BLOCKS, MAX_CAPTION_CHARS, MAX_CONTENT_BYTES,
    MAX_IMAGE_PATH_BYTES, MAX_SOURCE_FIELD_CHARS, MAX_STATUS_TEXT_CHARS, MAX_TITLE_CHARS,
    MAX_WINDOW_DIMENSION, MAX_WINDOW_POS, MIN_WINDOW_HEIGHT, MIN_WINDOW_POS, MIN_WINDOW_WIDTH,
};

fn valid_doc() -> PinDocument {
    PinDocument {
        version: 1,
        title: "test".to_string(),
        blocks: vec![PinBlock::Markdown(MarkdownBlock {
            content: "hello".to_string(),
        })],
        window: None,
        source: None,
        created_at: None,
    }
}

fn window(width: Option<u32>, height: Option<PinHeight>, x: Option<i32>, y: Option<i32>) -> Option<PinWindowConfig> {
    Some(PinWindowConfig {
        width,
        height,
        x,
        y,
        always_on_top: None,
    })
}

fn image(path: &str, caption: Option<String>) -> PinBlock {
    PinBlock::Image(ImageBlock {
        path: path.to_string(),
        caption,
    })
}

#[test]
fn test_valid_markdown() {
    assert!(validate(&valid_doc()).is_ok());
}

#[test]
fn test_valid_image_absolute() {
    let mut doc = valid_doc();
    doc.blocks = vec![image("/home/user/img.png", None)];
    assert!(validate(&doc).is_ok());
}

#[test]
fn test_valid_status_all_levels() {
    for level in &["info", "success", "warning", "error"] {
        let mut doc = valid_doc();
        doc.blocks = vec![PinBlock::Status(StatusBlock {
            level: Some(level.to_string()),
            text: "ok".to_string(),
        })];
        assert!(validate(&doc).is_ok(), "level {} should be valid", level);
    }
}

#[test]
fn test_invalid_version() {
    let mut doc = valid_doc();
    doc.version = 2;
    assert!(validate(&doc).is_err());
}

#[test]
fn test_empty_title() {
    let mut doc = valid_doc();
    doc.title = "   ".to_string();
    assert!(validate(&doc).is_err());
}

#[test]
fn test_title_too_long() {
    let mut doc = valid_doc();
    doc.title = "a".repeat(MAX_TITLE_CHARS + 1);
    assert!(validate(&doc).is_err());
}

#[test]
fn test_empty_blocks() {
    let mut doc = valid_doc();
    doc.blocks = vec![];
    assert!(validate(&doc).is_err());
}

#[test]
fn test_too_many_blocks() {
    let mut doc = valid_doc();
    doc.blocks = (0..MAX_BLOCKS + 1)
        .map(|_| {
            PinBlock::Markdown(MarkdownBlock {
                content: "x".to_string(),
            })
        })
        .collect();
    assert!(validate(&doc).is_err());
}

#[test]
fn test_markdown_content_too_large() {
    let mut doc = valid_doc();
    doc.blocks = vec![PinBlock::Markdown(MarkdownBlock {
        content: "a".repeat(MAX_CONTENT_BYTES + 1),
    })];
    assert!(validate(&doc).is_err());
}

#[test]
fn test_window_width_zero() {
    let mut doc = valid_doc();
    doc.window = window(Some(0), None, None, None);
    assert!(validate(&doc).is_err());
}

#[test]
fn test_window_height_number_zero() {
    let mut doc = valid_doc();
    doc.window = window(None, Some(PinHeight::Number(0)), None, None);
    assert!(validate(&doc).is_err());
}

#[test]
fn test_window_width_below_minimum_rejected() {
    let mut doc = valid_doc();
    doc.window = window(Some(MIN_WINDOW_WIDTH - 1), None, None, None);
    assert!(validate(&doc).is_err());
}

#[test]
fn test_window_width_at_minimum_accepted() {
    let mut doc = valid_doc();
    doc.window = window(Some(MIN_WINDOW_WIDTH), None, None, None);
    assert!(validate(&doc).is_ok());
}

#[test]
fn test_window_height_below_minimum_rejected() {
    let mut doc = valid_doc();
    doc.window = window(None, Some(PinHeight::Number(MIN_WINDOW_HEIGHT - 1)), None, None);
    assert!(validate(&doc).is_err());
}

#[test]
fn test_window_height_at_minimum_accepted() {
    let mut doc = valid_doc();
    doc.window = window(None, Some(PinHeight::Number(MIN_WINDOW_HEIGHT)), None, None);
    assert!(validate(&doc).is_ok());
}

#[test]
fn test_window_height_auto() {
    let mut doc = valid_doc();
    doc.window = window(None, Some(PinHeight::Auto("auto".to_string())), None, None);
    assert!(validate(&doc).is_ok());
}

#[test]
fn test_window_height_auto_invalid_string() {
    let mut doc = valid_doc();
    doc.window = window(None, Some(PinHeight::Auto("tall".to_string())), None, None);
    assert!(validate(&doc).is_err());
}

#[test]
fn test_image_relative_path_rejected() {
    let mut doc = valid_doc();
    doc.blocks = vec![image("relative/img.png", None)];
    assert!(validate(&doc).is_err());
}

#[test]
fn test_image_unsupported_extension() {
    let mut doc = valid_doc();
    doc.blocks = vec![image("/abs/img.bmp", None)];
    let err = validate(&doc).unwrap_err();
    assert_eq!(err.code, PinErrorCode::ImageUnsupported);
}

#[test]
fn test_image_extension_case_insensitive() {
    let mut doc = valid_doc();
    doc.blocks = vec![image("/abs/IMG.PNG", None)];
    assert!(validate(&doc).is_ok(), "uppercase extension should be valid");
}

#[test]
fn test_status_invalid_level() {
    let mut doc = valid_doc();
    doc.blocks = vec![PinBlock::Status(StatusBlock {
        level: Some("critical".to_string()),
        text: "ok".to_string(),
    })];
    assert!(validate(&doc).is_err());
}

#[test]
fn test_mixed_blocks() {
    let mut doc = valid_doc();
    doc.blocks = vec![
        PinBlock::Markdown(MarkdownBlock {
            content: "title".to_string(),
        }),
        image("/abs/img.png", Some("fig".to_string())),
        PinBlock::Status(StatusBlock {
            level: Some("info".to_string()),
            text: "ok".to_string(),
        }),
    ];
    assert!(validate(&doc).is_ok());
}

#[test]
fn test_image_path_whitespace_only() {
    let mut doc = valid_doc();
    doc.blocks = vec![image("/abs/   ", None)];
    assert!(validate(&doc).is_err());
}

#[test]
fn test_image_path_no_extension() {
    let mut doc = valid_doc();
    doc.blocks = vec![image("/abs/img", None)];
    let err = validate(&doc).unwrap_err();
    assert_eq!(err.code, PinErrorCode::ImageUnsupported);
}

#[test]
fn test_markdown_content_whitespace_only() {
    let mut doc = valid_doc();
    doc.blocks = vec![PinBlock::Markdown(MarkdownBlock {
        content: "   \n  ".to_string(),
    })];
    assert!(validate(&doc).is_err());
}

#[test]
fn test_window_width_too_large() {
    let mut doc = valid_doc();
    doc.window = window(Some(MAX_WINDOW_DIMENSION + 1), None, None, None);
    assert!(validate(&doc).is_err());
}

#[test]
fn test_title_exactly_at_limit() {
    let mut doc = valid_doc();
    doc.title = "a".repeat(MAX_TITLE_CHARS);
    assert!(validate(&doc).is_ok());
}

#[test]
fn test_blocks_exactly_at_limit() {
    let mut doc = valid_doc();
    doc.blocks = (0..MAX_BLOCKS)
        .map(|_| {
            PinBlock::Markdown(MarkdownBlock {
                content: "x".to_string(),
            })
        })
        .collect();
    assert!(validate(&doc).is_ok());
}

#[test]
fn test_caption_too_long() {
    let mut doc = valid_doc();
    doc.blocks = vec![image("/abs/img.png", Some("a".repeat(MAX_CAPTION_CHARS + 1)))];
    assert!(validate(&doc).is_err());
}

#[test]
fn test_status_text_too_long() {
    let mut doc = valid_doc();
    doc.blocks = vec![PinBlock::Status(StatusBlock {
        level: None,
        text: "a".repeat(MAX_STATUS_TEXT_CHARS + 1),
    })];
    assert!(validate(&doc).is_err());
}

#[test]
fn test_source_field_too_long() {
    let mut doc = valid_doc();
    doc.source = Some(PinSource {
        agent: Some("a".repeat(MAX_SOURCE_FIELD_CHARS + 1)),
        workspace: None,
        task: None,
        conversation_id: None,
    });
    assert!(validate(&doc).is_err());
}

#[test]
fn test_image_path_too_long() {
    let mut doc = valid_doc();
    let abs_path = format!("/abs/{}.png", "a".repeat(MAX_IMAGE_PATH_BYTES));
    doc.blocks = vec![image(&abs_path, None)];
    assert!(validate(&doc).is_err());
}

#[test]
fn test_title_control_chars_rejected() {
    let mut doc = valid_doc();
    doc.title = "hello\0world".to_string();
    assert!(validate(&doc).is_err());
}

#[test]
fn test_markdown_content_allows_newline() {
    let mut doc = valid_doc();
    doc.blocks = vec![PinBlock::Markdown(MarkdownBlock {
        content: "line1\nline2\ttabbed".to_string(),
    })];
    assert!(validate(&doc).is_ok());
}

#[test]
fn test_markdown_content_null_byte_rejected() {
    let mut doc = valid_doc();
    doc.blocks = vec![PinBlock::Markdown(MarkdownBlock {
        content: "evil\0content".to_string(),
    })];
    assert!(validate(&doc).is_err());
}

#[test]
fn test_image_path_null_byte_rejected() {
    let mut doc = valid_doc();
    doc.blocks = vec![image("C:\\safe\\img.png\0.evil", None)];
    assert!(validate(&doc).is_err());
}

#[test]
fn test_window_x_out_of_range() {
    let mut doc = valid_doc();
    doc.window = window(None, None, Some(MAX_WINDOW_POS + 1), None);
    assert!(validate(&doc).is_err());
}

#[test]
fn test_window_y_negative_extreme() {
    let mut doc = valid_doc();
    doc.window = window(None, None, None, Some(MIN_WINDOW_POS - 1));
    assert!(validate(&doc).is_err());
}

#[test]
fn test_window_x_at_boundary() {
    let mut doc = valid_doc();
    doc.window = window(None, None, Some(MAX_WINDOW_POS), Some(MIN_WINDOW_POS));
    assert!(validate(&doc).is_ok());
}

#[test]
fn test_pin_height_string_number_error_hint() {
    let mut doc = valid_doc();
    doc.window = window(None, Some(PinHeight::Auto("100".to_string())), None, None);
    let err = validate(&doc).unwrap_err();
    assert!(err.message.contains("use JSON number"));
}
