//! The Pin document model shared by the desktop service and the command-line
//! client, and the rules a document must satisfy before it is shown.
use vstd::prelude::*;
use crate::path::{extension, extension_of, is_absolute, is_absolute_path};
use crate::text::{
    append_int, ascii_lower, ascii_lower_chars, char_count, chars_are, chars_of, debug_str_text,
    debug_text, has_disallowed_control, has_disallowed_control_chars, int_text, is_blank,
    is_blank_text, owned, parse_unsigned, parse_unsigned_text, text_eq, utf8_len,
    utf8_len_exceeds,
};

verus! {

// ---------- document ----------

/// A Pin: a titled list of blocks, with optional window and source hints.
#[derive(Debug)]
pub struct PinDocument {
    pub version: u32,
    pub title: String,
    pub blocks: Vec<PinBlock>,
    pub window: Option<PinWindowConfig>,
    pub source: Option<PinSource>,
    pub created_at: Option<String>,
}

/// A `PinDocument` with its blocks as a sequence.
pub struct PinDocumentView {
    pub version: u32,
    pub title: String,
    pub blocks: Seq<PinBlock>,
    pub window: Option<PinWindowConfig>,
    pub source: Option<PinSource>,
    pub created_at: Option<String>,
}

impl View for PinDocument {
    type V = PinDocumentView;

    open spec fn view(&self) -> PinDocumentView {
        PinDocumentView {
            version: self.version,
            title: self.title,
            blocks: self.blocks@,
            window: self.window,
            source: self.source,
            created_at: self.created_at,
        }
    }
}

#[derive(Debug)]
pub enum PinBlock {
    Markdown(MarkdownBlock),
    Image(ImageBlock),
    Status(StatusBlock),
}

#[derive(Debug)]
pub struct MarkdownBlock {
    pub content: String,
}

#[derive(Debug)]
pub struct ImageBlock {
    pub path: String,
    pub caption: Option<String>,
}

#[derive(Debug)]
pub struct StatusBlock {
    pub level: Option<String>,
    pub text: String,
}

#[derive(Debug)]
pub struct PinWindowConfig {
    pub width: Option<u32>,
    /// A number, or the string `"auto"`.
    pub height: Option<PinHeight>,
    pub x: Option<i32>,
    pub y: Option<i32>,
    pub always_on_top: Option<bool>,
}

#[derive(Debug)]
pub enum PinHeight {
    Number(u32),
    Auto(String),
}

#[derive(Debug)]
pub struct PinSource {
    pub agent: Option<String>,
    pub workspace: Option<String>,
    pub task: Option<String>,
    pub conversation_id: Option<String>,
}

pub fn clone_opt_string(o: &Option<String>) -> (r: Option<String>)
    ensures
        r == *o,
{
    match o {
        Some(s) => Some(s.clone()),
        None => None,
    }
}

impl Clone for MarkdownBlock {
    fn clone(&self) -> (r: Self)
        ensures
            r == *self,
    {
        MarkdownBlock { content: self.content.clone() }
    }
}

impl Clone for ImageBlock {
    fn clone(&self) -> (r: Self)
        ensures
            r == *self,
    {
        ImageBlock { path: self.path.clone(), caption: clone_opt_string(&self.caption) }
    }
}

impl Clone for StatusBlock {
    fn clone(&self) -> (r: Self)
        ensures
            r == *self,
    {
        StatusBlock { level: clone_opt_string(&self.level), text: self.text.clone() }
    }
}

impl Clone for PinBlock {
    fn clone(&self) -> (r: Self)
        ensures
            r == *self,
    {
        match self {
            PinBlock::Markdown(m) => PinBlock::Markdown(m.clone()),
            PinBlock::Image(i) => PinBlock::Image(i.clone()),
            PinBlock::Status(s) => PinBlock::Status(s.clone()),
        }
    }
}

impl Clone for PinHeight {
    fn clone(&self) -> (r: Self)
        ensures
            r == *self,
    {
        match self {
            PinHeight::Number(n) => PinHeight::Number(*n),
            PinHeight::Auto(s) => PinHeight::Auto(s.clone()),
        }
    }
}

impl Clone for PinWindowConfig {
    fn clone(&self) -> (r: Self)
        ensures
            r == *self,
    {
        PinWindowConfig {
            width: self.width,
            height: match &self.height {
                Some(h) => Some(h.clone()),
                None => None,
            },
            x: self.x,
            y: self.y,
            always_on_top: self.always_on_top,
        }
    }
}

impl Clone for PinSource {
    fn clone(&self) -> (r: Self)
        ensures
            r == *self,
    {
        PinSource {
            agent: clone_opt_string(&self.agent),
            workspace: clone_opt_string(&self.workspace),
            task: clone_opt_string(&self.task),
            conversation_id: clone_opt_string(&self.conversation_id),
        }
    }
}

pub fn clone_opt_source(o: &Option<PinSource>) -> (r: Option<PinSource>)
    ensures
        r == *o,
{
    match o {
        Some(s) => Some(s.clone()),
        None => None,
    }
}

impl Clone for PinDocument {
    fn clone(&self) -> (r: Self)
        ensures
            r@ == self@,
    {
        PinDocument {
            version: self.version,
            title: self.title.clone(),
            blocks: self.blocks.clone(),
            window: match &self.window {
                Some(w) => Some(w.clone()),
                None => None,
            },
            source: clone_opt_source(&self.source),
            created_at: clone_opt_string(&self.created_at),
        }
    }
}

// ---------- errors ----------

/// Error codes of the HTTP API (their wire form is `as_str`).
#[derive(Debug, Clone, Copy, PartialEq, Eq, Structural)]
pub enum PinErrorCode {
    InvalidJson,
    InvalidPinDocument,
    /// Unknown block type (the JSON layer already refuses unknown types).
    UnsupportedBlockType,
    /// The image file does not exist.
    ImageNotFound,
    /// The image is not PNG/JPG/JPEG/WebP/GIF.
    ImageUnsupported,
    /// The pin named in a show/hide/delete request does not exist.
    PinNotFound,
    WindowCreateFailed,
    InternalError,
}

pub open spec fn error_code_text(code: PinErrorCode) -> Seq<char> {
    match code {
        PinErrorCode::InvalidJson => "INVALID_JSON"@,
        PinErrorCode::InvalidPinDocument => "INVALID_PIN_DOCUMENT"@,
        PinErrorCode::UnsupportedBlockType => "UNSUPPORTED_BLOCK_TYPE"@,
        PinErrorCode::ImageNotFound => "IMAGE_NOT_FOUND"@,
        PinErrorCode::ImageUnsupported => "IMAGE_UNSUPPORTED"@,
        PinErrorCode::PinNotFound => "PIN_NOT_FOUND"@,
        PinErrorCode::WindowCreateFailed => "WINDOW_CREATE_FAILED"@,
        PinErrorCode::InternalError => "INTERNAL_ERROR"@,
    }
}

impl PinErrorCode {
    /// The wire name of the code (`SCREAMING_SNAKE_CASE`).
    pub fn as_str(&self) -> (s: &'static str)
        ensures
            s@ == error_code_text(*self),
    {
        match self {
            PinErrorCode::InvalidJson => "INVALID_JSON",
            PinErrorCode::InvalidPinDocument => "INVALID_PIN_DOCUMENT",
            PinErrorCode::UnsupportedBlockType => "UNSUPPORTED_BLOCK_TYPE",
            PinErrorCode::ImageNotFound => "IMAGE_NOT_FOUND",
            PinErrorCode::ImageUnsupported => "IMAGE_UNSUPPORTED",
            PinErrorCode::PinNotFound => "PIN_NOT_FOUND",
            PinErrorCode::WindowCreateFailed => "WINDOW_CREATE_FAILED",
            PinErrorCode::InternalError => "INTERNAL_ERROR",
        }
    }
}

#[derive(Debug)]
pub struct PinError {
    pub code: PinErrorCode,
    pub message: String,
}

impl PinError {
    pub fn new(code: PinErrorCode, message: String) -> (e: Self)
        ensures
            e.code == code,
            e.message == message,
    {
        PinError { code, message }
    }
}

// ---------- limits ----------

/// Largest title, in characters.
pub const MAX_TITLE_CHARS: usize = 1024;

/// Largest Markdown content, in bytes.
pub const MAX_CONTENT_BYTES: usize = 256 * 1024;

/// Most blocks in one document.
pub const MAX_BLOCKS: usize = 50;

/// Largest image caption, in characters.
pub const MAX_CAPTION_CHARS: usize = 1024;

/// Largest status text, in characters.
pub const MAX_STATUS_TEXT_CHARS: usize = 4096;

/// Largest value of each source field, in characters.
pub const MAX_SOURCE_FIELD_CHARS: usize = 256;

/// Largest image path, in bytes.
pub const MAX_IMAGE_PATH_BYTES: usize = 4096;

/// Smallest window width (the window's own minimum).
pub const MIN_WINDOW_WIDTH: u32 = 280;

/// Smallest window height (keeps the title bar visible).
pub const MIN_WINDOW_HEIGHT: u32 = 100;

/// Largest window width or height.
pub const MAX_WINDOW_DIMENSION: u32 = 100_000;

/// Range of window coordinates.
pub const MIN_WINDOW_POS: i32 = -100_000;

pub const MAX_WINDOW_POS: i32 = 100_000;

/// Accepted image extensions (compared after ASCII lower-casing).
pub const IMAGE_EXTENSIONS: [&'static str; 5] = ["png", "jpg", "jpeg", "webp", "gif"];

// ---------- the rules, as a specification ----------

pub open spec fn invalid(msg: Seq<char>) -> Option<(PinErrorCode, Seq<char>)> {
    Some((PinErrorCode::InvalidPinDocument, msg))
}

/// `"<what> (max <max><unit>)"`.
pub open spec fn limit_text(what: Seq<char>, max: int, unit: Seq<char>) -> Seq<char> {
    what + " (max "@ + int_text(max) + unit + ")"@
}

/// `"<field> must be in [<lo>..<hi>], got <got>"`.
pub open spec fn range_text(field: Seq<char>, lo: int, hi: int, got: int) -> Seq<char> {
    field + " must be in ["@ + int_text(lo) + ".."@ + int_text(hi) + "], got "@ + int_text(got)
}

/// `"blocks[<i>]"`.
pub open spec fn block_prefix(i: int) -> Seq<char> {
    "blocks["@ + int_text(i) + "]"@
}

/// The message for a string window height other than `"auto"`; a string that
/// `u32` parsing accepts earns a hint to send a JSON number instead.
pub open spec fn height_text(s: Seq<char>) -> Seq<char> {
    "window.height string must be \"auto\", got "@ + debug_str_text(s) + if parse_unsigned(
        s,
        0xffff_ffff,
    ) is Some {
        "; if you mean height "@ + s + ", use JSON number "@ + s + " instead of string \""@ + s
            + "\""@
    } else {
        Seq::<char>::empty()
    }
}

pub open spec fn field_too_long(f: Option<String>, max: int) -> bool {
    f is Some && f->0@.len() > max
}

pub open spec fn source_error(src: Option<PinSource>) -> Option<(PinErrorCode, Seq<char>)> {
    match src {
        None => None,
        Some(s) => {
            let max = MAX_SOURCE_FIELD_CHARS as int;
            let unit = " chars"@;
            if field_too_long(s.agent, max) {
                invalid(limit_text("source.agent too long"@, max, unit))
            } else if field_too_long(s.workspace, max) {
                invalid(limit_text("source.workspace too long"@, max, unit))
            } else if field_too_long(s.task, max) {
                invalid(limit_text("source.task too long"@, max, unit))
            } else if field_too_long(s.conversation_id, max) {
                invalid(limit_text("source.conversationId too long"@, max, unit))
            } else {
                None
            }
        },
    }
}

pub open spec fn height_error(h: Option<PinHeight>) -> Option<(PinErrorCode, Seq<char>)> {
    match h {
        Some(PinHeight::Auto(s)) => if s@ != "auto"@ {
            invalid(height_text(s@))
        } else {
            None
        },
        Some(PinHeight::Number(n)) => if !(MIN_WINDOW_HEIGHT <= n <= MAX_WINDOW_DIMENSION) {
            invalid(
                range_text(
                    "window.height"@,
                    MIN_WINDOW_HEIGHT as int,
                    MAX_WINDOW_DIMENSION as int,
                    n as int,
                ),
            )
        } else {
            None
        },
        None => None,
    }
}

pub open spec fn window_error(w: Option<PinWindowConfig>) -> Option<(PinErrorCode, Seq<char>)> {
    match w {
        None => None,
        Some(win) => {
            if win.width is Some && !(MIN_WINDOW_WIDTH <= win.width->0 <= MAX_WINDOW_DIMENSION) {
                invalid(
                    range_text(
                        "window.width"@,
                        MIN_WINDOW_WIDTH as int,
                        MAX_WINDOW_DIMENSION as int,
                        win.width->0 as int,
                    ),
                )
            } else if height_error(win.height) is Some {
                height_error(win.height)
            } else if win.x is Some && !(MIN_WINDOW_POS <= win.x->0 <= MAX_WINDOW_POS) {
                invalid(
                    range_text(
                        "window.x"@,
                        MIN_WINDOW_POS as int,
                        MAX_WINDOW_POS as int,
                        win.x->0 as int,
                    ),
                )
            } else if win.y is Some && !(MIN_WINDOW_POS <= win.y->0 <= MAX_WINDOW_POS) {
                invalid(
                    range_text(
                        "window.y"@,
                        MIN_WINDOW_POS as int,
                        MAX_WINDOW_POS as int,
                        win.y->0 as int,
                    ),
                )
            } else {
                None
            }
        },
    }
}

/// One of the accepted image extensions (already lower-cased).
pub open spec fn is_image_extension(e: Seq<char>) -> bool {
    ||| e == "png"@
    ||| e == "jpg"@
    ||| e == "jpeg"@
    ||| e == "webp"@
    ||| e == "gif"@
}

/// The path's extension, ASCII lower-cased, is an accepted one.
pub open spec fn has_image_extension(path: Seq<char>) -> bool {
    match extension(path) {
        Some(e) => is_image_extension(ascii_lower(e)),
        None => false,
    }
}

pub open spec fn is_status_level(l: Seq<char>) -> bool {
    ||| l == "info"@
    ||| l == "success"@
    ||| l == "warning"@
    ||| l == "error"@
}

pub open spec fn image_error(img: ImageBlock, i: int) -> Option<(PinErrorCode, Seq<char>)> {
    let p = img.path@;
    if is_blank(p) {
        invalid(block_prefix(i) + ".path must be non-empty"@)
    } else if has_disallowed_control(p) {
        invalid(block_prefix(i) + ".path must not contain control characters"@)
    } else if utf8_len(p) > MAX_IMAGE_PATH_BYTES {
        invalid(
            block_prefix(i) + limit_text(".path too long"@, MAX_IMAGE_PATH_BYTES as int, " bytes"@),
        )
    } else if img.caption is Some && has_disallowed_control(img.caption->0@) {
        invalid(block_prefix(i) + ".caption must not contain control characters"@)
    } else if img.caption is Some && img.caption->0@.len() > MAX_CAPTION_CHARS {
        invalid(
            block_prefix(i) + limit_text(
                ".caption too long"@,
                MAX_CAPTION_CHARS as int,
                " chars"@,
            ),
        )
    } else if !is_absolute_path(p) {
        invalid(
            block_prefix(i)
                + ".path must be absolute (relative path resolution is CLI's job)"@,
        )
    } else if !has_image_extension(p) {
        Some(
            (
                PinErrorCode::ImageUnsupported,
                block_prefix(i)
                    + ".path has unsupported image format (supported: [\"png\", \"jpg\", \"jpeg\", \"webp\", \"gif\"])"@,
            ),
        )
    } else {
        None
    }
}

pub open spec fn block_error(b: PinBlock, i: int) -> Option<(PinErrorCode, Seq<char>)> {
    match b {
        PinBlock::Markdown(m) => {
            let c = m.content@;
            if is_blank(c) {
                invalid(block_prefix(i) + ".content must be non-empty"@)
            } else if has_disallowed_control(c) {
                invalid(block_prefix(i) + ".content must not contain control characters"@)
            } else if utf8_len(c) > MAX_CONTENT_BYTES {
                invalid(
                    block_prefix(i) + limit_text(
                        ".content too large"@,
                        MAX_CONTENT_BYTES as int,
                        " bytes"@,
                    ),
                )
            } else {
                None
            }
        },
        PinBlock::Image(img) => image_error(img, i),
        PinBlock::Status(s) => {
            let t = s.text@;
            if is_blank(t) {
                invalid(block_prefix(i) + ".text must be non-empty"@)
            } else if has_disallowed_control(t) {
                invalid(block_prefix(i) + ".text must not contain control characters"@)
            } else if t.len() > MAX_STATUS_TEXT_CHARS {
                invalid(
                    block_prefix(i) + limit_text(
                        ".text too long"@,
                        MAX_STATUS_TEXT_CHARS as int,
                        " chars"@,
                    ),
                )
            } else if s.level is Some && !is_status_level(s.level->0@) {
                invalid(block_prefix(i) + ".level must be one of info/success/warning/error"@)
            } else {
                None
            }
        },
    }
}

/// The first failing block at or after position `i`.
pub open spec fn blocks_error(bs: Seq<PinBlock>, i: int) -> Option<(PinErrorCode, Seq<char>)>
    decreases bs.len() - i,
{
    if i < 0 || i >= bs.len() {
        None
    } else if block_error(bs[i], i) is Some {
        block_error(bs[i], i)
    } else {
        blocks_error(bs, i + 1)
    }
}

/// The first rule that `doc` breaks, with its error code and message, in the
/// order the rules are checked; `None` when the document is valid.
pub open spec fn validation_error(doc: PinDocumentView) -> Option<(PinErrorCode, Seq<char>)> {
    let t = doc.title@;
    if doc.version != 1 {
        invalid("version must be 1"@)
    } else if has_disallowed_control(t) {
        invalid("title must not contain control characters"@)
    } else if is_blank(t) {
        invalid("title must be non-empty"@)
    } else if t.len() > MAX_TITLE_CHARS {
        invalid(limit_text("title too long"@, MAX_TITLE_CHARS as int, " chars"@))
    } else if source_error(doc.source) is Some {
        source_error(doc.source)
    } else if window_error(doc.window) is Some {
        window_error(doc.window)
    } else if doc.blocks.len() == 0 {
        invalid("blocks must contain at least one block"@)
    } else if doc.blocks.len() > MAX_BLOCKS {
        invalid(limit_text("too many blocks"@, MAX_BLOCKS as int, ""@))
    } else {
        blocks_error(doc.blocks, 0)
    }
}

/// `validate` returned `r` for a document whose first broken rule is `expected`.
pub open spec fn reports(r: Result<(), PinError>, expected: Option<(PinErrorCode, Seq<char>)>) -> bool {
    match r {
        Ok(()) => expected is None,
        Err(e) => expected == Some((e.code, e.message@)),
    }
}

// ---------- exec: messages ----------

fn fail(msg: String) -> (r: Result<(), PinError>)
    ensures
        r matches Err(e) && e.code == PinErrorCode::InvalidPinDocument && e.message@ == msg@,
{
    Err(PinError::new(PinErrorCode::InvalidPinDocument, msg))
}

fn limit_message(what: &str, max: usize, unit: &str) -> (m: String)
    requires
        max <= i64::MAX,
    ensures
        m@ == limit_text(what@, max as int, unit@),
{
    let mut m = owned(what);
    m.append(" (max ");
    append_int(&mut m, max as i64);
    m.append(unit);
    m.append(")");
    m
}

fn range_message(field: &str, lo: i64, hi: i64, got: i64) -> (m: String)
    ensures
        m@ == range_text(field@, lo as int, hi as int, got as int),
{
    let mut m = owned(field);
    m.append(" must be in [");
    append_int(&mut m, lo);
    m.append("..");
    append_int(&mut m, hi);
    m.append("], got ");
    append_int(&mut m, got);
    m
}

fn block_message(i: usize, rest: &str) -> (m: String)
    requires
        i <= i64::MAX,
    ensures
        m@ == block_prefix(i as int) + rest@,
{
    let mut m = owned("blocks[");
    append_int(&mut m, i as i64);
    m.append("]");
    m.append(rest);
    m
}

fn block_limit_message(i: usize, what: &str, max: usize, unit: &str) -> (m: String)
    requires
        i <= i64::MAX,
        max <= i64::MAX,
    ensures
        m@ == block_prefix(i as int) + limit_text(what@, max as int, unit@),
{
    let l = limit_message(what, max, unit);
    block_message(i, l.as_str())
}

fn height_message(s: &str) -> (m: String)
    ensures
        m@ == height_text(s@),
{
    let mut m = owned("window.height string must be \"auto\", got ");
    let d = debug_text(s);
    m.append(d.as_str());
    if parse_unsigned_text(s, 0xffff_ffff).is_some() {
        m.append("; if you mean height ");
        m.append(s);
        m.append(", use JSON number ");
        m.append(s);
        m.append(" instead of string \"");
        m.append(s);
        m.append("\"");
    } else {
        assert(m@ =~= m@ + Seq::<char>::empty());
    }
    m
}

// ---------- exec: checks ----------

fn too_long(f: &Option<String>, max: usize) -> (r: bool)
    ensures
        r == field_too_long(*f, max as int),
{
    match f {
        Some(s) => char_count(s.as_str()) > max,
        None => false,
    }
}

fn check_source(src: &Option<PinSource>) -> (r: Result<(), PinError>)
    ensures
        reports(r, source_error(*src)),
{
    match src {
        None => Ok(()),
        Some(s) => {
            if too_long(&s.agent, MAX_SOURCE_FIELD_CHARS) {
                fail(limit_message("source.agent too long", MAX_SOURCE_FIELD_CHARS, " chars"))
            } else if too_long(&s.workspace, MAX_SOURCE_FIELD_CHARS) {
                fail(limit_message("source.workspace too long", MAX_SOURCE_FIELD_CHARS, " chars"))
            } else if too_long(&s.task, MAX_SOURCE_FIELD_CHARS) {
                fail(limit_message("source.task too long", MAX_SOURCE_FIELD_CHARS, " chars"))
            } else if too_long(&s.conversation_id, MAX_SOURCE_FIELD_CHARS) {
                fail(
                    limit_message(
                        "source.conversationId too long",
                        MAX_SOURCE_FIELD_CHARS,
                        " chars",
                    ),
                )
            } else {
                Ok(())
            }
        },
    }
}

fn check_height(h: &Option<PinHeight>) -> (r: Result<(), PinError>)
    ensures
        reports(r, height_error(*h)),
{
    match h {
        Some(PinHeight::Auto(s)) => {
            if !text_eq(s.as_str(), "auto") {
                fail(height_message(s.as_str()))
            } else {
                Ok(())
            }
        },
        Some(PinHeight::Number(n)) => {
            let n = *n;
            if !(MIN_WINDOW_HEIGHT <= n && n <= MAX_WINDOW_DIMENSION) {
                fail(
                    range_message(
                        "window.height",
                        MIN_WINDOW_HEIGHT as i64,
                        MAX_WINDOW_DIMENSION as i64,
                        n as i64,
                    ),
                )
            } else {
                Ok(())
            }
        },
        None => Ok(()),
    }
}

fn check_window(w: &Option<PinWindowConfig>) -> (r: Result<(), PinError>)
    ensures
        reports(r, window_error(*w)),
{
    match w {
        None => Ok(()),
        Some(win) => {
            if let Some(width) = win.width {
                if !(MIN_WINDOW_WIDTH <= width && width <= MAX_WINDOW_DIMENSION) {
                    return fail(
                        range_message(
                            "window.width",
                            MIN_WINDOW_WIDTH as i64,
                            MAX_WINDOW_DIMENSION as i64,
                            width as i64,
                        ),
                    );
                }
            }
            let h = check_height(&win.height);
            if h.is_err() {
                return h;
            }
            if let Some(x) = win.x {
                if !(MIN_WINDOW_POS <= x && x <= MAX_WINDOW_POS) {
                    return fail(
                        range_message(
                            "window.x",
                            MIN_WINDOW_POS as i64,
                            MAX_WINDOW_POS as i64,
                            x as i64,
                        ),
                    );
                }
            }
            if let Some(y) = win.y {
                if !(MIN_WINDOW_POS <= y && y <= MAX_WINDOW_POS) {
                    return fail(
                        range_message(
                            "window.y",
                            MIN_WINDOW_POS as i64,
                            MAX_WINDOW_POS as i64,
                            y as i64,
                        ),
                    );
                }
            }
            Ok(())
        },
    }
}

/// Whether `path` has one of the accepted image extensions (any ASCII case).
pub fn image_extension_ok(path: &str) -> (r: bool)
    ensures
        r == has_image_extension(path@),
{
    let pv = chars_of(path);
    match extension_of(&pv) {
        Some(e) => {
            let l = ascii_lower_chars(&e);
            chars_are(&l, "png") || chars_are(&l, "jpg") || chars_are(&l, "jpeg") || chars_are(
                &l,
                "webp",
            ) || chars_are(&l, "gif")
        },
        None => false,
    }
}

fn check_image(img: &ImageBlock, i: usize) -> (r: Result<(), PinError>)
    requires
        i <= i64::MAX,
    ensures
        reports(r, image_error(*img, i as int)),
{
    let p = img.path.as_str();
    if is_blank_text(p) {
        return fail(block_message(i, ".path must be non-empty"));
    }
    if has_disallowed_control_chars(p) {
        return fail(block_message(i, ".path must not contain control characters"));
    }
    if utf8_len_exceeds(p, MAX_IMAGE_PATH_BYTES) {
        return fail(block_limit_message(i, ".path too long", MAX_IMAGE_PATH_BYTES, " bytes"));
    }
    if let Some(cap) = &img.caption {
        if has_disallowed_control_chars(cap.as_str()) {
            return fail(block_message(i, ".caption must not contain control characters"));
        }
        if char_count(cap.as_str()) > MAX_CAPTION_CHARS {
            return fail(
                block_limit_message(i, ".caption too long", MAX_CAPTION_CHARS, " chars"),
            );
        }
    }
    let pv = chars_of(p);
    if !is_absolute(&pv) {
        return fail(
            block_message(i, ".path must be absolute (relative path resolution is CLI's job)"),
        );
    }
    if !image_extension_ok(p) {
        return Err(
            PinError::new(
                PinErrorCode::ImageUnsupported,
                block_message(
                    i,
                    ".path has unsupported image format (supported: [\"png\", \"jpg\", \"jpeg\", \"webp\", \"gif\"])",
                ),
            ),
        );
    }
    Ok(())
}

fn check_block(b: &PinBlock, i: usize) -> (r: Result<(), PinError>)
    requires
        i <= i64::MAX,
    ensures
        reports(r, block_error(*b, i as int)),
{
    match b {
        PinBlock::Markdown(m) => {
            let c = m.content.as_str();
            if is_blank_text(c) {
                fail(block_message(i, ".content must be non-empty"))
            } else if has_disallowed_control_chars(c) {
                fail(block_message(i, ".content must not contain control characters"))
            } else if utf8_len_exceeds(c, MAX_CONTENT_BYTES) {
                fail(block_limit_message(i, ".content too large", MAX_CONTENT_BYTES, " bytes"))
            } else {
                Ok(())
            }
        },
        PinBlock::Image(img) => check_image(img, i),
        PinBlock::Status(s) => {
            let t = s.text.as_str();
            if is_blank_text(t) {
                fail(block_message(i, ".text must be non-empty"))
            } else if has_disallowed_control_chars(t) {
                fail(block_message(i, ".text must not contain control characters"))
            } else if char_count(t) > MAX_STATUS_TEXT_CHARS {
                fail(block_limit_message(i, ".text too long", MAX_STATUS_TEXT_CHARS, " chars"))
            } else {
                match &s.level {
                    Some(l) => {
                        let lv = l.as_str();
                        if !(text_eq(lv, "info") || text_eq(lv, "success") || text_eq(
                            lv,
                            "warning",
                        ) || text_eq(lv, "error")) {
                            fail(
                                block_message(
                                    i,
                                    ".level must be one of info/success/warning/error",
                                ),
                            )
                        } else {
                            Ok(())
                        }
                    },
                    None => Ok(()),
                }
            }
        },
    }
}

/// Checks a document against the rules, in order, and reports the first one
/// it breaks. The image file itself is not looked at (only its path).
pub fn validate(doc: &PinDocument) -> (r: Result<(), PinError>)
    ensures
        reports(r, validation_error(doc@)),
{
    if doc.version != 1 {
        return fail(owned("version must be 1"));
    }
    let t = doc.title.as_str();
    if has_disallowed_control_chars(t) {
        return fail(owned("title must not contain control characters"));
    }
    if is_blank_text(t) {
        return fail(owned("title must be non-empty"));
    }
    if char_count(t) > MAX_TITLE_CHARS {
        return fail(limit_message("title too long", MAX_TITLE_CHARS, " chars"));
    }
    let s = check_source(&doc.source);
    if s.is_err() {
        return s;
    }
    let w = check_window(&doc.window);
    if w.is_err() {
        return w;
    }
    if doc.blocks.len() == 0 {
        return fail(owned("blocks must contain at least one block"));
    }
    if doc.blocks.len() > MAX_BLOCKS {
        return fail(limit_message("too many blocks", MAX_BLOCKS, ""));
    }
    let mut i: usize = 0;
    while i < doc.blocks.len()
        invariant
            i <= doc.blocks.len() <= MAX_BLOCKS,
            validation_error(doc@) == blocks_error(doc.blocks@, 0),
            blocks_error(doc.blocks@, 0) == blocks_error(doc.blocks@, i as int),
        decreases doc.blocks.len() - i,
    {
        let r = check_block(&doc.blocks[i], i);
        if r.is_err() {
            return r;
        }
        i += 1;
    }
    Ok(())
}

// ---------- laws ----------

/// The accepted image formats are exactly PNG, JPG, JPEG, WebP and GIF, in
/// any ASCII case: a path has an accepted image extension exactly when its
/// extension, lower-cased, is one of `png`, `jpg`, `jpeg`, `webp`, `gif`.
pub proof fn law_accepted_image_formats(p: Seq<char>)
    ensures
        has_image_extension(p) == (extension(p) matches Some(e) && {
            let l = ascii_lower(e);
            l == "png"@ || l == "jpg"@ || l == "jpeg"@ || l == "webp"@ || l == "gif"@
        }),
{
}

/// An image block that passes the checks on its path and caption and names
/// an absolute path is refused only for its format: it is accepted exactly
/// when the path's extension, lower-cased, is `png`, `jpg`, `jpeg`, `webp`
/// or `gif`, and otherwise refused with `IMAGE_UNSUPPORTED`.
pub proof fn law_absolute_image_refused_only_for_format(img: ImageBlock, i: int)
    requires
        !is_blank(img.path@),
        !has_disallowed_control(img.path@),
        utf8_len(img.path@) <= 4096,
        img.caption matches Some(c) ==> !has_disallowed_control(c@) && c@.len() <= 1024,
        is_absolute_path(img.path@),
    ensures
        (image_error(img, i) is None) == (extension(img.path@) matches Some(e) && {
            let l = ascii_lower(e);
            l == "png"@ || l == "jpg"@ || l == "jpeg"@ || l == "webp"@ || l == "gif"@
        }),
        image_error(img, i) matches Some((code, _)) ==> code == PinErrorCode::ImageUnsupported,
{
}

} // verus!
