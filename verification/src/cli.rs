//! The command-line client's own rules: its errors, the checks on its
//! arguments, the documents it builds from them, the reading of the
//! service's answers and what it prints. Parsing the command line, reading
//! files and talking HTTP are the caller's.
use vstd::prelude::*;
use crate::path::{is_absolute, is_absolute_path, join, join_path, parent_of, parent_path, extension, extension_of};
use crate::pin::{is_image_extension, is_status_level, validate, validation_error, PinBlock, PinDocument, PinErrorCode, PinHeight, PinSource, PinWindowConfig, clone_opt_string, error_code_text};
use crate::registry::pin_id_text;
use crate::storage::pin_id_error;
use crate::text::{contains_text, dec_text, is_ascii_digit, lemma_ascii_utf8_len, lemma_dec_text, lemma_zero_padded_digits, occurs_at, pow10, zero_padded, ascii_lower, ascii_lower_chars, byte_len, chars_are, chars_of, int_text, is_ascii_alphanumeric, joined, owned, parse_unsigned, parse_unsigned_text, push_char, string_of, text_eq, u64_text, utf8_len};

verus! {

// ---------- errors ----------

/// An error of the client: a machine-readable code and a message.
#[derive(Debug)]
pub struct CliError {
    pub code: String,
    pub message: String,
}

impl CliError {
    pub fn new(code: &str, message: String) -> (e: Self)
        ensures
            e.code@ == code@,
            e.message == message,
    {
        CliError { code: owned(code), message }
    }

    /// The desktop app is not running (the connection was refused).
    pub fn not_running(message: String) -> (e: Self)
        ensures
            e.code@ == "NOT_RUNNING"@,
            e.message == message,
    {
        CliError::new("NOT_RUNNING", message)
    }

    /// The user's input is unusable.
    pub fn invalid_input(message: String) -> (e: Self)
        ensures
            e.code@ == "INVALID_INPUT"@,
            e.message == message,
    {
        CliError::new("INVALID_INPUT", message)
    }

    /// The error as text: its message.
    pub fn to_string(&self) -> (r: String)
        ensures
            r@ == self.message@,
    {
        owned(self.message.as_str())
    }
}

// ---------- pin ids ----------

pub open spec fn pin_id_char(c: char) -> bool {
    is_ascii_alphanumeric(c) || c == '_' || c == '-'
}

/// Why the client refuses a pin id before putting it in a URL path, if it
/// does: empty, longer than 128 bytes, the reserved `manager`, or any
/// character but ASCII letters, digits, `_` and `-` (which keeps `#`, `?`,
/// `/` and `..` out of the route).
pub open spec fn cli_pin_id_error(id: Seq<char>) -> Option<Seq<char>> {
    if id.len() == 0 {
        Some("pin_id 不能为空"@)
    } else if utf8_len(id) > 128 {
        Some("pin_id 过长（最大 128 字符）: "@ + int_text(utf8_len(id) as int) + " 字符"@)
    } else if id == "manager"@ {
        Some("pin_id 'manager' 是保留字，不能使用"@)
    } else if exists|i: int| 0 <= i < id.len() && !pin_id_char(#[trigger] id[i]) {
        Some("非法 pin_id（只允许字母、数字、下划线和连字符）: "@ + id)
    } else {
        None
    }
}

/// Checks a pin id given on the command line.
pub fn validate_pin_id(pin_id: &str) -> (r: Result<(), CliError>)
    ensures
        match cli_pin_id_error(pin_id@) {
            None => r is Ok,
            Some(m) => r matches Err(e) && e.code@ == "INVALID_INPUT"@ && e.message@ == m,
        },
{
    let v = chars_of(pin_id);
    if v.len() == 0 {
        return Err(CliError::invalid_input(owned("pin_id 不能为空")));
    }
    let n = byte_len(pin_id);
    if n > 128 {
        let mut m = owned("pin_id 过长（最大 128 字符）: ");
        let t = u64_text(n as u64);
        m.append(t.as_str());
        m.append(" 字符");
        return Err(CliError::invalid_input(m));
    }
    if text_eq(pin_id, "manager") {
        return Err(CliError::invalid_input(owned("pin_id 'manager' 是保留字，不能使用")));
    }
    let mut i: usize = 0;
    while i < v.len()
        invariant
            v@ == pin_id@,
            pin_id@.len() > 0,
            utf8_len(pin_id@) <= 128,
            pin_id@ != "manager"@,
            i <= v.len(),
            forall|k: int| 0 <= k < i ==> pin_id_char(#[trigger] v@[k]),
        decreases v.len() - i,
    {
        let c = v[i];
        let ok = ('0' <= c && c <= '9') || ('a' <= c && c <= 'z') || ('A' <= c && c <= 'Z') || c == '_'
            || c == '-';
        if !ok {
            assert(!pin_id_char(pin_id@[i as int]));
            assert(cli_pin_id_error(pin_id@) == Some("非法 pin_id（只允许字母、数字、下划线和连字符）: "@ + pin_id@));
            return Err(CliError::invalid_input(joined("非法 pin_id（只允许字母、数字、下划线和连字符）: ", pin_id)));
        }
        i += 1;
    }
    Ok(())
}

// ---------- documents from arguments ----------

/// The window and source options shared by the `markdown`, `image` and
/// `status` commands.
#[derive(Debug)]
pub struct CommonArgs {
    pub width: Option<u32>,
    /// A number, or `auto`.
    pub height: Option<String>,
    pub no_always_on_top: bool,
    pub agent: Option<String>,
    pub workspace: Option<String>,
    pub task: Option<String>,
}

/// `--height`: a decimal `u32` becomes a number, anything else is passed on
/// as text (the service accepts only `auto` there).
pub open spec fn height_arg(h: String, r: PinHeight) -> bool {
    match parse_unsigned(h@, u32::MAX as nat) {
        Some(n) => r == PinHeight::Number(n as u32),
        None => r matches PinHeight::Auto(s) && s@ == h@,
    }
}

/// No window option was given.
pub open spec fn no_window_args(common: CommonArgs) -> bool {
    common.width is None && common.height is None && !common.no_always_on_top
}

/// `w` is the window configuration the options ask for: `None` when none
/// was given; otherwise the width, the height as `height_arg` reads it, no
/// position, and `always_on_top` false exactly when `--no-always-on-top`.
pub open spec fn window_from_args(common: CommonArgs, w: Option<PinWindowConfig>) -> bool {
    if no_window_args(common) {
        w is None
    } else {
        w matches Some(c) && c.width == common.width && c.x is None && c.y is None
            && c.always_on_top == (if common.no_always_on_top { Some(false) } else { None::<bool> })
            && match common.height {
                None => c.height is None,
                Some(h) => c.height matches Some(ch) && height_arg(h, ch),
            }
    }
}

/// The window options, or `None` when none was given. The client never
/// sets a position; `--no-always-on-top` sets `always_on_top` to false.
pub fn build_window_config(common: &CommonArgs) -> (r: Option<PinWindowConfig>)
    ensures
        window_from_args(*common, r),
{
    let height = match &common.height {
        None => None,
        Some(h) => match parse_unsigned_text(h.as_str(), 4294967295u64) {
            Some(n) => Some(PinHeight::Number(n as u32)),
            None => Some(PinHeight::Auto(h.clone())),
        },
    };
    let always_on_top = if common.no_always_on_top {
        Some(false)
    } else {
        None
    };
    if common.width.is_none() && height.is_none() && always_on_top.is_none() {
        return None;
    }
    Some(PinWindowConfig { width: common.width, height, x: None, y: None, always_on_top })
}

/// The source the options give: `None` when none of agent, workspace and
/// task was given (the conversation id is never set by these commands).
pub open spec fn source_from_args(common: CommonArgs) -> Option<PinSource> {
    if common.agent is None && common.workspace is None && common.task is None {
        None
    } else {
        Some(PinSource { agent: common.agent, workspace: common.workspace, task: common.task, conversation_id: None })
    }
}

/// A document's source comes from the options as given: there is none
/// exactly when none of agent, workspace and task was given, and otherwise
/// each of the three is carried over unchanged (any one of them alone is
/// enough), with no conversation id.
pub proof fn law_source_keeps_each_option(common: CommonArgs)
    ensures
        (source_from_args(common) is None) == (common.agent is None && common.workspace is None && common.task is None),
        source_from_args(common) matches Some(s) ==> s.agent == common.agent && s.workspace == common.workspace
            && s.task == common.task && s.conversation_id is None,
{
}

/// The source options, or `None` when none was given.
pub fn build_source(common: &CommonArgs) -> (r: Option<PinSource>)
    ensures
        r == source_from_args(*common),
        (r is None) == (common.agent is None && common.workspace is None && common.task is None),
        r matches Some(s) ==> s.agent == common.agent && s.workspace == common.workspace && s.task
            == common.task && s.conversation_id is None,
{
    proof {
        law_source_keeps_each_option(*common);
    }
    if common.agent.is_none() && common.workspace.is_none() && common.task.is_none() {
        return None;
    }
    Some(
        PinSource {
            agent: clone_opt_string(&common.agent),
            workspace: clone_opt_string(&common.workspace),
            task: clone_opt_string(&common.task),
            conversation_id: None,
        },
    )
}

/// A version-1 document with the given title and blocks and the window and
/// source options; its creation time is left to the service.
pub fn build_pin_doc(title: &str, blocks: Vec<PinBlock>, common: &CommonArgs) -> (d: PinDocument)
    ensures
        d.version == 1,
        d.title@ == title@,
        d.blocks@ == blocks@,
        window_from_args(*common, d.window),
        d.source == source_from_args(*common),
        (d.source is None) == (common.agent is None && common.workspace is None && common.task is None),
        d.source matches Some(s) ==> s.agent == common.agent && s.workspace == common.workspace && s.task
            == common.task,
        d.created_at is None,
{
    proof {
        law_source_keeps_each_option(*common);
    }
    let window = build_window_config(common);
    let source = build_source(common);
    PinDocument { version: 1, title: owned(title), blocks, window, source, created_at: None }
}

/// `--level` must be one of the four status levels when given.
pub fn check_status_level(level: &Option<String>) -> (r: Result<(), CliError>)
    ensures
        match level {
            None => r is Ok,
            Some(l) => if is_status_level(l@) {
                r is Ok
            } else {
                r matches Err(e) && e.code@ == "INVALID_INPUT"@ && e.message@ == "非法 --level '"@ + l@
                    + "'；必须是 info、success、warning、error 之一"@
            },
        },
{
    match level {
        None => Ok(()),
        Some(l) => {
            let s = l.as_str();
            if text_eq(s, "info") || text_eq(s, "success") || text_eq(s, "warning") || text_eq(s, "error") {
                Ok(())
            } else {
                let mut m = joined("非法 --level '", s);
                m.append("'；必须是 info、success、warning、error 之一");
                Err(CliError::invalid_input(m))
            }
        },
    }
}

/// The wire name of a document error code.
pub fn pin_error_code(code: PinErrorCode) -> (r: String)
    ensures
        r@ == error_code_text(code),
{
    owned(code.as_str())
}

/// Checks a document before sending it, so that a bad one fails without a
/// request: the error keeps the document error's code.
pub fn precheck_document(doc: &PinDocument) -> (r: Result<(), CliError>)
    ensures
        match validation_error(doc@) {
            None => r is Ok,
            Some((c, m)) => r matches Err(e) && e.code@ == error_code_text(c) && e.message@ == "非法 PinDocument: "@
                + m,
        },
{
    match validate(doc) {
        Ok(()) => Ok(()),
        Err(e) => {
            let code = pin_error_code(e.code);
            Err(CliError::new(code.as_str(), joined("非法 PinDocument: ", e.message.as_str())))
        },
    }
}

// ---------- answers of the service ----------

/// What the client reads of a JSON answer: the `ok` flag when it is a
/// boolean, whether there is an `error` member, that member's `code` and
/// `message` when they are strings, and the answer as JSON text.
#[derive(Debug)]
pub struct ResponseSummary {
    pub ok: Option<bool>,
    pub has_error: bool,
    pub error_code: Option<String>,
    pub error_message: Option<String>,
    pub text: String,
}

/// A 2xx answer still counts only with `"ok": true`; otherwise its error
/// (code `UNKNOWN` and a default message where they are missing), or
/// `INVALID_RESPONSE` when it has none.
pub fn ensure_ok_response(resp: &ResponseSummary) -> (r: Result<(), CliError>)
    ensures
        resp.ok == Some(true) ==> r is Ok,
        resp.ok != Some(true) && resp.has_error ==> (r matches Err(e) && e.code@ == (match resp.error_code {
            Some(c) => c@,
            None => "UNKNOWN"@,
        }) && e.message@ == (match resp.error_message {
            Some(m) => m@,
            None => "响应 ok=false 但缺少 error.message"@,
        })),
        resp.ok != Some(true) && !resp.has_error ==> (r matches Err(e) && e.code@ == "INVALID_RESPONSE"@
            && e.message@ == "服务端响应格式异常: "@ + resp.text@),
{
    if resp.ok == Some(true) {
        return Ok(());
    }
    if resp.has_error {
        let code = match &resp.error_code {
            Some(c) => c.as_str(),
            None => "UNKNOWN",
        };
        let message = match &resp.error_message {
            Some(m) => owned(m.as_str()),
            None => owned("响应 ok=false 但缺少 error.message"),
        };
        return Err(CliError::new(code, message));
    }
    Err(CliError::new("INVALID_RESPONSE", joined("服务端响应格式异常: ", resp.text.as_str())))
}

// ---------- arguments ----------

/// `--json` appears among the arguments before any `--`.
pub open spec fn json_flag_in(args: Seq<String>) -> bool {
    exists|i: int| 0 <= i < args.len() && (#[trigger] args[i])@ == "--json"@ && forall|j: int|
        0 <= j < i ==> (#[trigger] args[j])@ != "--"@
}

/// Whether the raw arguments ask for JSON output (checked before parsing,
/// so that even a usage error is reported as JSON).
pub fn json_flag_requested(args: &Vec<String>) -> (r: bool)
    ensures
        r == json_flag_in(args@),
{
    let mut i: usize = 0;
    while i < args.len()
        invariant
            i <= args@.len(),
            forall|j: int| 0 <= j < i ==> (#[trigger] args@[j])@ != "--"@ && args@[j]@ != "--json"@,
        decreases args.len() - i,
    {
        if text_eq(args[i].as_str(), "--") {
            proof {
                assert forall|k: int| 0 <= k < args@.len() && (#[trigger] args@[k])@ == "--json"@ implies exists|j: int|
                    0 <= j < k && (#[trigger] args@[j])@ == "--"@ by {
                    reveal_strlit("--");
                    reveal_strlit("--json");
                    assert("--"@.len() != "--json"@.len());
                    if k < i {
                        assert(args@[k]@ != "--json"@);
                    }
                    assert(args@[i as int]@ == "--"@);
                    assert(k != i);
                }
            }
            return false;
        }
        if text_eq(args[i].as_str(), "--json") {
            return true;
        }
        i += 1;
    }
    false
}

/// Whether resolving the input's directory needs the current directory
/// (stdin, or a relative file path).
pub fn input_needs_cwd(file: &str) -> (r: bool)
    ensures
        r == (file@ == "-"@ || !is_absolute_path(file@)),
{
    let fv = chars_of(file);
    text_eq(file, "-") || !is_absolute(&fv)
}

/// The directory relative image paths of a pushed document are resolved
/// against: the current directory for stdin (`-`), else the directory of
/// the file (made absolute against `cwd`), or `.` when it has none.
pub fn input_base_dir(file: &str, cwd: &str) -> (r: String)
    ensures
        file@ == "-"@ ==> r@ == cwd@,
        file@ != "-"@ ==> ({
            let abs = if is_absolute_path(file@) { file@ } else { join_path(cwd@, file@) };
            r@ == match parent_path(abs) {
                Some(p) => p,
                None => "."@,
            }
        }),
{
    if text_eq(file, "-") {
        return owned(cwd);
    }
    let fv = chars_of(file);
    let abs = if is_absolute(&fv) {
        owned(file)
    } else {
        join(cwd, file)
    };
    match parent_of(abs.as_str()) {
        Some(p) => p,
        None => owned("."),
    }
}

// ---------- images ----------

/// An image argument, absolute or resolved against `base_dir`.
pub fn image_source_path(path: &str, base_dir: &str) -> (r: String)
    ensures
        r@ == (if is_absolute_path(path@) { path@ } else { join_path(base_dir@, path@) }),
{
    let pv = chars_of(path);
    if is_absolute(&pv) {
        owned(path)
    } else {
        join(base_dir, path)
    }
}

/// The extension (lower-cased) of an image to copy into the store, or why
/// the image is refused: no extension, or not PNG/JPG/JPEG/WebP/GIF.
pub fn image_store_extension(path: &str) -> (r: Result<String, CliError>)
    ensures
        match extension(path@) {
            None => r matches Err(e) && e.code@ == "IMAGE_UNSUPPORTED"@ && e.message@
                == "图片路径必须带扩展名：png、jpg、jpeg、webp 或 gif"@,
            Some(x) => if is_image_extension(ascii_lower(x)) {
                r matches Ok(s) && s@ == ascii_lower(x)
            } else {
                r matches Err(e) && e.code@ == "IMAGE_UNSUPPORTED"@ && e.message@ == "不支持的图片格式 '"@
                    + ascii_lower(x) + "'；支持格式为 [\"png\", \"jpg\", \"jpeg\", \"webp\", \"gif\"]"@
            },
        },
{
    let pv = chars_of(path);
    match extension_of(&pv) {
        None => Err(CliError::new("IMAGE_UNSUPPORTED", owned("图片路径必须带扩展名：png、jpg、jpeg、webp 或 gif"))),
        Some(x) => {
            let l = ascii_lower_chars(&x);
            let ext = string_of(&l, 0, l.len());
            assert(ext@ =~= ascii_lower(x@));
            if chars_are(&l, "png") || chars_are(&l, "jpg") || chars_are(&l, "jpeg") || chars_are(&l, "webp")
                || chars_are(&l, "gif") {
                Ok(ext)
            } else {
                let mut m = joined("不支持的图片格式 '", ext.as_str());
                m.append("'；支持格式为 [\"png\", \"jpg\", \"jpeg\", \"webp\", \"gif\"]");
                Err(CliError::new("IMAGE_UNSUPPORTED", m))
            }
        },
    }
}

/// The home directory the image store lives under, or the error when it is
/// unknown.
pub fn home_dir_required(home: Option<String>) -> (r: Result<String, CliError>)
    ensures
        match home {
            Some(h) => r == Ok::<String, CliError>(h),
            None => r matches Err(e) && e.code@ == "HOME_NOT_FOUND"@ && e.message@
                == "无法确定用户 home 目录（USERPROFILE/HOME 均未设置），无法托管图片"@,
        },
{
    match home {
        Some(h) => Ok(h),
        None => Err(CliError::new("HOME_NOT_FOUND", owned("无法确定用户 home 目录（USERPROFILE/HOME 均未设置），无法托管图片"))),
    }
}

/// The copies this run made into the image store, so that they can be
/// removed again when the Pin is not created (existing store files that
/// were reused are not listed).
#[derive(Debug)]
pub struct ImageCopyTracker {
    copied: Vec<String>,
}

impl ImageCopyTracker {
    pub closed spec fn copies(&self) -> Seq<Seq<char>> {
        Seq::new(self.copied@.len(), |i: int| self.copied@[i]@)
    }

    pub fn new() -> (t: Self)
        ensures
            t.copies() == Seq::<Seq<char>>::empty(),
    {
        let t = ImageCopyTracker { copied: Vec::new() };
        assert(t.copies() =~= Seq::<Seq<char>>::empty());
        t
    }

    /// Notes the result of one image copy: a new copy is tracked.
    pub fn record(&mut self, copied_path: Option<String>)
        ensures
            final(self).copies() == match copied_path {
                Some(p) => old(self).copies().push(p@),
                None => old(self).copies(),
            },
    {
        match copied_path {
            Some(p) => {
                let ghost pv = p@;
                self.copied.push(p);
                assert(self.copies() =~= old(self).copies().push(pv));
            },
            None => {
                assert(self.copies() =~= old(self).copies());
            },
        }
    }

    /// Hands out every tracked copy (to be deleted) and forgets them.
    pub fn drain(&mut self) -> (r: Vec<String>)
        ensures
            final(self).copies() == Seq::<Seq<char>>::empty(),
            r@.len() == old(self).copies().len(),
            forall|i: int| 0 <= i < r@.len() ==> (#[trigger] r@[i])@ == old(self).copies()[i],
    {
        let mut out: Vec<String> = Vec::new();
        std::mem::swap(&mut out, &mut self.copied);
        assert(self.copies() =~= Seq::<Seq<char>>::empty());
        out
    }
}

/// What `push` reads of one block of a raw Pin JSON: its `type` and its
/// `path`, where they are strings.
#[derive(Debug)]
pub struct RawBlock {
    pub block_type: Option<String>,
    pub path: Option<String>,
}

/// A block whose image `push` copies: type `image` with a string path.
pub open spec fn copied_image_block(b: RawBlock) -> bool {
    &&& b.block_type matches Some(t) && t@ == "image"@
    &&& b.path is Some
}

/// The blocks of a pushed document whose images are copied into the store,
/// with their paths, in block order.
pub fn image_paths_to_copy(blocks: &Vec<RawBlock>) -> (r: Vec<(usize, String)>)
    ensures
        forall|j: int| 0 <= j < r@.len() ==> (#[trigger] r@[j]).0 < blocks@.len() && copied_image_block(
            blocks@[r@[j].0 as int],
        ) && blocks@[r@[j].0 as int].path == Some(r@[j].1),
        forall|a: int, b: int| 0 <= a < b < r@.len() ==> (#[trigger] r@[a]).0 < (#[trigger] r@[b]).0,
        forall|i: int| 0 <= i < blocks@.len() && copied_image_block(#[trigger] blocks@[i]) ==> exists|j: int|
            0 <= j < r@.len() && r@[j].0 == i,
{
    let mut r: Vec<(usize, String)> = Vec::new();
    let mut i: usize = 0;
    while i < blocks.len()
        invariant
            i <= blocks@.len(),
            forall|j: int| 0 <= j < r@.len() ==> (#[trigger] r@[j]).0 < i && copied_image_block(
                blocks@[r@[j].0 as int],
            ) && blocks@[r@[j].0 as int].path == Some(r@[j].1),
            forall|a: int, b: int| 0 <= a < b < r@.len() ==> (#[trigger] r@[a]).0 < (#[trigger] r@[b]).0,
            forall|k: int| 0 <= k < i && copied_image_block(#[trigger] blocks@[k]) ==> exists|j: int|
                0 <= j < r@.len() && r@[j].0 == k,
        decreases blocks.len() - i,
    {
        let is_image = match &blocks[i].block_type {
            Some(t) => text_eq(t.as_str(), "image"),
            None => false,
        };
        if is_image {
            match &blocks[i].path {
                Some(p) => {
                    let ghost before = r@;
                    r.push((i, p.clone()));
                    proof {
                        assert forall|k: int| 0 <= k < i + 1 && copied_image_block(#[trigger] blocks@[k]) implies exists|j: int|
                            0 <= j < r@.len() && r@[j].0 == k by {
                            if k < i {
                                let j = choose|j: int| 0 <= j < before.len() && before[j].0 == k;
                                assert(r@[j] == before[j]);
                            } else {
                                assert(r@[before.len() as int].0 == k);
                            }
                        }
                    }
                },
                None => {},
            }
        }
        i += 1;
    }
    r
}

// ---------- reading input ----------

/// Largest input file (or stdin), in bytes.
pub const MAX_FILE_BYTES: usize = 2 * 1024 * 1024;

/// The size check on input read from `path` (`None`: stdin) that came to
/// `len` bytes.
pub fn check_input_size(len: usize, path: Option<&str>) -> (r: Result<(), CliError>)
    ensures
        len <= 2097152 ==> r is Ok,
        len > 2097152 ==> (r matches Err(e) && e.code@ == "INVALID_INPUT"@ && e.message@ == match path {
            None => "stdin 过大（最大 2097152 字节）"@,
            Some(p) => "文件 '"@ + p@ + "' 过大（最大 2097152 字节）"@,
        }),
{
    if len <= MAX_FILE_BYTES {
        return Ok(());
    }
    match path {
        None => Err(CliError::invalid_input(owned("stdin 过大（最大 2097152 字节）"))),
        Some(p) => {
            let mut m = joined("文件 '", p);
            m.append("' 过大（最大 2097152 字节）");
            Err(CliError::invalid_input(m))
        },
    }
}

/// `s` without its leading byte-order marks (`U+FEFF`).
pub open spec fn without_bom(s: Seq<char>) -> Seq<char>
    decreases s.len(),
{
    if s.len() > 0 && s[0] == '\u{feff}' {
        without_bom(s.drop_first())
    } else {
        s
    }
}

/// Drops the byte-order marks Windows tools put at the start of text.
pub fn strip_bom(s: &str) -> (r: String)
    ensures
        r@ == without_bom(s@),
{
    let v = chars_of(s);
    let mut i: usize = 0;
    assert(v@.skip(0) =~= v@);
    while i < v.len() && v[i] == '\u{feff}'
        invariant
            v@ == s@,
            i <= v.len(),
            without_bom(v@.skip(i as int)) == without_bom(s@),
        decreases v.len() - i,
    {
        assert(v@.skip(i as int).drop_first() =~= v@.skip(i + 1));
        i += 1;
    }
    let r = string_of(&v, i, v.len());
    assert(r@ =~= v@.skip(i as int));
    r
}

// ---------- output ----------

/// How an error is reported.
#[derive(Debug)]
pub enum ErrorReport {
    /// `{"ok":false,"error":{"code":..,"message":..}}` on stdout.
    Json { code: String, message: String },
    /// Lines for stdout.
    Stdout(Vec<String>),
    /// Lines for stderr.
    Stderr(Vec<String>),
}

/// The report of `err`: as JSON with `--json`; "not running" as a friendly
/// hint (on stdout for `health`, stderr otherwise); anything else as
/// `错误: <message>` on stderr.
pub fn error_report(err: &CliError, json: bool, health_command: bool) -> (r: ErrorReport)
    ensures
        json ==> (r matches ErrorReport::Json { code, message } && code@ == err.code@ && message@ == err.message@),
        !json && err.code@ == "NOT_RUNNING"@ ==> (if health_command {
            r matches ErrorReport::Stdout(lines) && lines@.len() == 2 && lines@[0]@ == "Agent Pin 未运行。"@
                && lines@[1]@ == "请先启动桌面应用。"@
        } else {
            r matches ErrorReport::Stderr(lines) && lines@.len() == 2 && lines@[0]@ == "Agent Pin 未运行。"@
                && lines@[1]@ == "请先启动桌面应用。"@
        }),
        !json && err.code@ != "NOT_RUNNING"@ ==> (r matches ErrorReport::Stderr(lines) && lines@.len() == 1
            && lines@[0]@ == "错误: "@ + err.message@),
{
    if json {
        return ErrorReport::Json { code: owned(err.code.as_str()), message: owned(err.message.as_str()) };
    }
    if text_eq(err.code.as_str(), "NOT_RUNNING") {
        let mut lines: Vec<String> = Vec::new();
        lines.push(owned("Agent Pin 未运行。"));
        lines.push(owned("请先启动桌面应用。"));
        if health_command {
            return ErrorReport::Stdout(lines);
        } else {
            return ErrorReport::Stderr(lines);
        }
    }
    let mut lines: Vec<String> = Vec::new();
    lines.push(joined("错误: ", err.message.as_str()));
    ErrorReport::Stderr(lines)
}

/// One Pin of the list answer, as far as its fields are strings.
#[derive(Debug)]
pub struct ListedPin {
    pub pin_id: Option<String>,
    pub title: Option<String>,
    pub state: Option<String>,
}

/// `s` padded with spaces to `width` characters.
pub open spec fn padded(s: Seq<char>, width: nat) -> Seq<char> {
    if s.len() >= width {
        s
    } else {
        s + Seq::new((width - s.len()) as nat, |i: int| ' ')
    }
}

/// The id column's width: the longest id in bytes, 20 when no Pin has one.
pub open spec fn id_width(pins: Seq<ListedPin>) -> nat
    decreases pins.len(),
{
    if pins.len() == 0 {
        0
    } else {
        let rest = id_width(pins.drop_last());
        let w: nat = match pins.last().pin_id {
            Some(id) => utf8_len(id@),
            None => 0,
        };
        if w > rest { w } else { rest }
    }
}

pub open spec fn has_any_id(pins: Seq<ListedPin>) -> bool {
    exists|i: int| 0 <= i < pins.len() && (#[trigger] pins[i]).pin_id is Some
}

pub open spec fn list_line(p: ListedPin, width: nat) -> Seq<char> {
    padded(match p.pin_id { Some(id) => id@, None => "?"@ }, width) + "  "@ + match p.title {
        Some(t) => t@,
        None => "(no title)"@,
    } + "  "@ + match p.state {
        Some(s) => s@,
        None => "?"@,
    }
}

/// The lines `agent-pin list` prints: `还没有 Pin。` for none, else one
/// line per Pin, id (padded to the widest id), title and state.
pub fn list_lines(pins: &Vec<ListedPin>) -> (r: Vec<String>)
    ensures
        pins@.len() == 0 ==> r@.len() == 1 && r@[0]@ == "还没有 Pin。"@,
        pins@.len() > 0 ==> r@.len() == pins@.len() && forall|i: int| 0 <= i < r@.len() ==> (#[trigger] r@[i])@
            == list_line(pins@[i], if has_any_id(pins@) { id_width(pins@) } else { 20 }),
{
    let mut r: Vec<String> = Vec::new();
    if pins.len() == 0 {
        r.push(owned("还没有 Pin。"));
        return r;
    }
    let mut width: usize = 0;
    let mut any = false;
    let mut i: usize = 0;
    while i < pins.len()
        invariant
            i <= pins@.len(),
            width as nat == id_width(pins@.take(i as int)),
            any == has_any_id(pins@.take(i as int)),
        decreases pins.len() - i,
    {
        assert(pins@.take((i + 1) as int).drop_last() =~= pins@.take(i as int));
        match &pins[i].pin_id {
            Some(id) => {
                let n = byte_len(id.as_str());
                if n > width {
                    width = n;
                }
                any = true;
                assert(pins@.take((i + 1) as int)[i as int].pin_id is Some);
            },
            None => {
                proof {
                    if has_any_id(pins@.take((i + 1) as int)) {
                        let k = choose|k: int| 0 <= k < i + 1 && (#[trigger] pins@.take((i + 1) as int)[k]).pin_id is Some;
                        assert(pins@.take(i as int)[k].pin_id is Some);
                    }
                }
            },
        }
        proof {
            if any {
                if has_any_id(pins@.take(i as int)) {
                    let k = choose|k: int| 0 <= k < i && (#[trigger] pins@.take(i as int)[k]).pin_id is Some;
                    assert(pins@.take((i + 1) as int)[k].pin_id is Some);
                }
            }
        }
        i += 1;
    }
    assert(pins@.take(pins@.len() as int) =~= pins@);
    if !any {
        width = 20;
    }
    let mut j: usize = 0;
    while j < pins.len()
        invariant
            j <= pins@.len(),
            r@.len() == j,
            width as nat == (if has_any_id(pins@) { id_width(pins@) } else { 20 }),
            forall|k: int| 0 <= k < j ==> (#[trigger] r@[k])@ == list_line(pins@[k], width as nat),
        decreases pins.len() - j,
    {
        let p = &pins[j];
        let mut line = match &p.pin_id {
            Some(id) => owned(id.as_str()),
            None => owned("?"),
        };
        let ghost id_text = line@;
        let n = crate::text::char_count(line.as_str());
        if n < width {
            let mut k = n;
            while k < width
                invariant
                    n == id_text.len(),
                    n <= k <= width,
                    line@ == id_text + Seq::new((k - n) as nat, |i: int| ' '),
                decreases width - k,
            {
                push_char(&mut line, ' ');
                assert(line@ =~= id_text + Seq::new((k + 1 - n) as nat, |i: int| ' '));
                k += 1;
            }
        } else {
            assert(line@ =~= id_text);
        }
        assert(line@ =~= padded(id_text, width as nat));
        line.append("  ");
        match &p.title {
            Some(t) => line.append(t.as_str()),
            None => line.append("(no title)"),
        }
        line.append("  ");
        match &p.state {
            Some(s) => line.append(s.as_str()),
            None => line.append("?"),
        }
        r.push(line);
        j += 1;
    }
    r
}

// ---------- laws ----------

/// Every pin id the client accepts is accepted by the desktop service as
/// well (the client's rules are the stricter ones).
pub proof fn law_client_ids_accepted_by_service(id: Seq<char>)
    requires
        cli_pin_id_error(id) is None,
    ensures
        pin_id_error(id) is None,
{
    assert(forall|i: int| 0 <= i < id.len() ==> pin_id_char(#[trigger] id[i]));
    reveal_strlit("..");
    if contains_text(id, ".."@) {
        let i = choose|i: int| occurs_at(id, ".."@, i);
        assert(id.subrange(i, i + 2)[0] == id[i]);
        assert(!pin_id_char(id[i]));
    }
}

/// The ids the service generates, `pin_<ts>_<six digits>`, pass both the
/// client's and the service's checks.
pub proof fn law_generated_ids_valid(ts: i64, r: u32)
    requires
        r < 1_000_000,
    ensures
        cli_pin_id_error(pin_id_text(ts as int, r as nat)) is None,
        pin_id_error(pin_id_text(ts as int, r as nat)) is None,
{
    let s = pin_id_text(ts as int, r as nat);
    let mag: nat = if ts < 0 { (-(ts as int)) as nat } else { ts as nat };
    reveal_with_fuel(pow10, 20);
    assert(pow10(19) == 10000000000000000000nat);
    assert(pow10(6) == 1000000nat);
    lemma_dec_text(mag, 19);
    lemma_dec_text(r as nat, 6);
    lemma_zero_padded_digits(r as nat, 6);
    let a = crate::text::int_text(ts as int);
    let b = zero_padded(r as nat, 6);
    assert(b.len() == 6);
    assert(a.len() <= 20);
    assert(forall|i: int| 0 <= i < a.len() ==> is_ascii_digit(#[trigger] a[i]) || a[i] == '-') by {
        assert forall|i: int| 0 <= i < a.len() implies is_ascii_digit(#[trigger] a[i]) || a[i] == '-' by {
            if ts < 0 {
                if i > 0 {
                    assert(a[i] == dec_text(mag)[i - 1]);
                }
            } else {
                assert(a[i] == dec_text(mag)[i]);
            }
        }
    }
    reveal_strlit("pin_");
    reveal_strlit("_");
    reveal_strlit("manager");
    let p = "pin_"@;
    let u = "_"@;
    assert(s == p + a + u + b);
    assert forall|i: int| 0 <= i < s.len() implies pin_id_char(#[trigger] s[i]) && (s[i] as u32) < 0x80 by {
        if i < 4 {
            assert(s[i] == p[i]);
        } else if i < 4 + a.len() {
            assert(s[i] == a[i - 4]);
        } else if i < 5 + a.len() {
            assert(s[i] == '_');
        } else {
            assert(s[i] == b[i - 5 - a.len()]);
            assert(is_ascii_digit(b[i - 5 - a.len()]));
        }
    }
    lemma_ascii_utf8_len(s);
    assert(s[0] == 'p');
    assert(s != "manager"@);
    assert(cli_pin_id_error(s) is None);
    law_client_ids_accepted_by_service(s);
}

} // verus!
