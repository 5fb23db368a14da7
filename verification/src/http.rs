//! The local HTTP service's rules: which requests get through (only
//! loopback hosts; POST bodies only as JSON), what a new Pin must satisfy,
//! and the uniform error answers `{"ok":false,"error":{code,message}}`.
//! Listening, routing and JSON encoding are the caller's.
use vstd::prelude::*;
use crate::pin::{is_image_extension, validate, validation_error, ImageBlock, PinBlock, PinDocument, PinErrorCode};
use crate::pin_actions::ShowPinError;
use crate::path::{extension, extension_of, is_absolute, is_absolute_path};
use crate::registry::{PinEntry, PinEntryView, PinRegistry};
use crate::storage::{pin_id_error, PinState};
use crate::text::{ascii_lower, ascii_lower_chars, chars_are, chars_of, contains_char, has_char, is_prefix, joined, join_all, lemma_next_sep, lemma_prev_sep, next_sep, next_sep_at, owned, parse_unsigned, parse_unsigned_text, prev_sep, prev_sep_at, sep_joined, starts_with_text, string_of, texts};

verus! {

// ---------- error answers ----------

pub const STATUS_OK: u16 = 200;
pub const STATUS_BAD_REQUEST: u16 = 400;
pub const STATUS_FORBIDDEN: u16 = 403;
pub const STATUS_NOT_FOUND: u16 = 404;
pub const STATUS_CONFLICT: u16 = 409;
pub const STATUS_UNSUPPORTED_MEDIA_TYPE: u16 = 415;
pub const STATUS_INTERNAL_SERVER_ERROR: u16 = 500;

/// Largest request body, in bytes.
pub const MAX_BODY: usize = 1024 * 1024;

/// Most Pins the service keeps.
pub const MAX_PIN_COUNT: usize = 500;

/// An error answer: the HTTP status, and the body's code and message.
#[derive(Debug)]
pub struct ErrorResponse {
    pub status: u16,
    pub code: PinErrorCode,
    pub message: String,
}

/// The uniform error answer.
pub fn err_response(status: u16, code: PinErrorCode, message: String) -> (r: ErrorResponse)
    ensures
        r.status == status,
        r.code == code,
        r.message == message,
{
    ErrorResponse { status, code, message }
}

/// The answer for a failed show: missing → 404 `PIN_NOT_FOUND`; failed Pin
/// → 409; window creation → 500 `WINDOW_CREATE_FAILED`; otherwise 500
/// `INTERNAL_ERROR`. The message is the error's own.
pub fn show_pin_err_response(e: ShowPinError) -> (r: ErrorResponse)
    ensures
        match e {
            ShowPinError::NotFound(m) => r.status == 404 && r.code == PinErrorCode::PinNotFound && r.message == m,
            ShowPinError::Failed(m) => r.status == 409 && r.code == PinErrorCode::InternalError && r.message == m,
            ShowPinError::WindowCreate(m) => r.status == 500 && r.code == PinErrorCode::WindowCreateFailed
                && r.message == m,
            ShowPinError::Internal(m) => r.status == 500 && r.code == PinErrorCode::InternalError && r.message == m,
        },
{
    match e {
        ShowPinError::NotFound(m) => err_response(STATUS_NOT_FOUND, PinErrorCode::PinNotFound, m),
        ShowPinError::Failed(m) => err_response(STATUS_CONFLICT, PinErrorCode::InternalError, m),
        ShowPinError::WindowCreate(m) => err_response(
            STATUS_INTERNAL_SERVER_ERROR,
            PinErrorCode::WindowCreateFailed,
            m,
        ),
        ShowPinError::Internal(m) => err_response(STATUS_INTERNAL_SERVER_ERROR, PinErrorCode::InternalError, m),
    }
}

// ---------- Host header ----------

/// A `Host` header split into host name and optional port text:
/// `[name]`, `[name]:port`, the bare `::1`, `name` or `name:port` (split at
/// the last colon; a name with another colon, or stray brackets, is
/// refused).
pub open spec fn host_split(h: Seq<char>) -> Option<(Seq<char>, Option<Seq<char>>)> {
    if h.len() > 0 && h[0] == '[' {
        let st = h.skip(1);
        let end = next_sep(st, ']', 0);
        if end >= st.len() {
            None
        } else {
            let rest = st.skip(end + 1);
            if rest.len() == 0 {
                Some((st.take(end), None))
            } else if rest[0] == ':' {
                Some((st.take(end), Some(rest.skip(1))))
            } else {
                None
            }
        }
    } else if h == "::1"@ {
        Some((h, None))
    } else if contains_char(h, '[') || contains_char(h, ']') {
        None
    } else {
        let i = prev_sep(h, ':', h.len() as int);
        if i < 0 {
            Some((h, None))
        } else if contains_char(h.take(i), ':') {
            None
        } else {
            Some((h.take(i), Some(h.skip(i + 1))))
        }
    }
}

/// A loopback host name: `localhost` in any ASCII case, `127.0.0.1` or `::1`.
pub open spec fn loopback_name(n: Seq<char>) -> bool {
    ascii_lower(n) == "localhost"@ || n == "127.0.0.1"@ || n == "::1"@
}

/// The `Host` header names this machine, on any valid port.
pub open spec fn localhost_host(h: Seq<char>) -> bool {
    h.len() > 0 && match host_split(h) {
        None => false,
        Some((n, p)) => loopback_name(n) && match p {
            None => true,
            Some(port) => parse_unsigned(port, 65535) is Some,
        },
    }
}

/// Whether a `Host` header is a loopback address with an optional port
/// (defends against DNS rebinding).
pub fn is_localhost_host(host: &str) -> (r: bool)
    ensures
        r == localhost_host(host@),
{
    let v = chars_of(host);
    if v.len() == 0 {
        return false;
    }
    let (name, port): (String, Option<String>) = if v[0] == '[' {
        let st = string_of(&v, 1, v.len());
        let sv = chars_of(st.as_str());
        let end = next_sep_at(&sv, ']', 0);
        proof {
            lemma_next_sep(sv@, ']', 0);
            assert(sv@ =~= host@.skip(1));
        }
        if end >= sv.len() {
            return false;
        }
        let name = string_of(&sv, 0, end);
        let rest = string_of(&sv, end + 1, sv.len());
        let rv = chars_of(rest.as_str());
        proof {
            assert(name@ =~= host@.skip(1).take(end as int));
            assert(rv@ =~= host@.skip(1).skip(end + 1));
        }
        if rv.len() == 0 {
            (name, None)
        } else if rv[0] == ':' {
            let p = string_of(&rv, 1, rv.len());
            assert(p@ =~= rv@.skip(1));
            (name, Some(p))
        } else {
            return false;
        }
    } else if crate::text::text_eq(host, "::1") {
        (owned(host), None)
    } else if has_char(&v, '[') || has_char(&v, ']') {
        return false;
    } else {
        match prev_sep_at(&v, ':') {
            None => (owned(host), None),
            Some(i) => {
                proof {
                    lemma_prev_sep(v@, ':', v@.len() as int);
                }
                let name = string_of(&v, 0, i);
                let nv = chars_of(name.as_str());
                assert(nv@ =~= host@.take(i as int));
                if has_char(&nv, ':') {
                    return false;
                }
                let p = string_of(&v, i + 1, v.len());
                assert(p@ =~= host@.skip(i + 1));
                (name, Some(p))
            },
        }
    };
    let port_ok = match port {
        None => true,
        Some(p) => parse_unsigned_text(p.as_str(), 65535).is_some(),
    };
    let lower = crate::text::ascii_lowercase(name.as_str());
    port_ok && (crate::text::text_eq(lower.as_str(), "localhost") || crate::text::text_eq(
        name.as_str(),
        "127.0.0.1",
    ) || crate::text::text_eq(name.as_str(), "::1"))
}

// ---------- request guard ----------

pub open spec fn guard_verdict(host: Seq<char>, is_post: bool, content_type: Seq<char>) -> Option<(u16, PinErrorCode, Seq<char>)> {
    if !localhost_host(host) {
        Some((403u16, PinErrorCode::InternalError, "host not allowed"@))
    } else if is_post && !is_prefix("application/json"@, content_type) {
        Some((415u16, PinErrorCode::InvalidJson, "Content-Type must be application/json"@))
    } else {
        None
    }
}

/// The guard in front of every route: the `Host` header must be a loopback
/// host (else 403), and a POST must declare `application/json` (else 415;
/// parameters such as a charset may follow). `None` lets the request
/// through. A missing header is passed as the empty string.
pub fn request_guard(host: &str, is_post: bool, content_type: &str) -> (r: Option<ErrorResponse>)
    ensures
        match guard_verdict(host@, is_post, content_type@) {
            None => r is None,
            Some((s, c, m)) => r matches Some(e) && e.status == s && e.code == c && e.message@ == m,
        },
{
    if !is_localhost_host(host) {
        return Some(err_response(STATUS_FORBIDDEN, PinErrorCode::InternalError, owned("host not allowed")));
    }
    if is_post && !starts_with_text(content_type, "application/json") {
        return Some(
            err_response(
                STATUS_UNSUPPORTED_MEDIA_TYPE,
                PinErrorCode::InvalidJson,
                owned("Content-Type must be application/json"),
            ),
        );
    }
    None
}

// ---------- creating Pins ----------

/// Whether a new Pin may be created when `pin_count` Pins exist: the
/// document must be valid (else 400 with its error) and fewer than
/// `MAX_PIN_COUNT` Pins may exist (else 409).
pub fn admit_new_pin(doc: &PinDocument, pin_count: usize) -> (r: Result<(), ErrorResponse>)
    ensures
        match validation_error(doc@) {
            Some((c, m)) => r matches Err(e) && e.status == 400 && e.code == c && e.message@ == m,
            None => if pin_count >= 500 {
                r matches Err(e) && e.status == 409 && e.code == PinErrorCode::InternalError && e.message@
                    == "pin count limit reached (max 500)"@
            } else {
                r is Ok
            },
        },
{
    match validate(doc) {
        Err(e) => {
            return Err(err_response(STATUS_BAD_REQUEST, e.code, e.message));
        },
        Ok(()) => {},
    }
    if pin_count >= MAX_PIN_COUNT {
        return Err(
            err_response(
                STATUS_CONFLICT,
                PinErrorCode::InternalError,
                owned("pin count limit reached (max 500)"),
            ),
        );
    }
    Ok(())
}

/// What follows the creation of a new Pin's window.
pub enum NewPinStep {
    /// The window is up: the Pin stays and the request succeeds.
    Created,
    /// The window could not be made: the Pin was taken out of the registry
    /// again (`removed`, which the caller settles with `commit_remove` once
    /// the state file is written, and whose document it deletes), and the
    /// request is answered with `answer`.
    RolledBack { removed: Option<PinEntry>, answer: ErrorResponse },
}

/// The step of `POST /api/pins` after the Pin `pin_id` was added and its
/// window was made (`created`): on success nothing changes; on failure the
/// Pin is taken out again and the answer is 500 `WINDOW_CREATE_FAILED` with
/// the window's error.
pub fn new_pin_window_done(reg: &mut PinRegistry, pin_id: &str, created: Result<(), String>) -> (r: NewPinStep)
    requires
        old(reg).wf(),
    ensures
        final(reg).wf(),
        final(reg).recreating_ids() == old(reg).recreating_ids(),
        match created {
            Ok(()) => r is Created && final(reg)@ == old(reg)@,
            Err(e) => r matches NewPinStep::RolledBack { removed, answer } && answer.status == 500
                && answer.code == PinErrorCode::WindowCreateFailed && answer.message == e && match pin_id_error(
                pin_id@,
            ) {
                Some(_) => removed is None && final(reg)@ == old(reg)@,
                None => final(reg)@ == old(reg)@.remove(pin_id@) && match removed {
                    Some(x) => old(reg)@.contains_key(pin_id@) && x@ == old(reg)@[pin_id@],
                    None => !old(reg)@.contains_key(pin_id@),
                },
            },
        },
{
    match created {
        Ok(()) => NewPinStep::Created,
        Err(e) => {
            let removed = match reg.remove(pin_id) {
                Ok(x) => x,
                Err(_) => None,
            };
            NewPinStep::RolledBack {
                removed,
                answer: err_response(STATUS_INTERNAL_SERVER_ERROR, PinErrorCode::WindowCreateFailed, e),
            }
        },
    }
}

/// An image path the service copies into its own store: an absolute path
/// with an accepted extension; its extension lower-cased.
pub open spec fn copy_candidate(path: Seq<char>) -> Option<Seq<char>> {
    if is_absolute_path(path) {
        match extension(path) {
            Some(e) => if is_image_extension(ascii_lower(e)) {
                Some(ascii_lower(e))
            } else {
                None
            },
            None => None,
        }
    } else {
        None
    }
}

/// The lower-cased extension of an image path to copy into the store, or
/// `None` for a path that stays as it is (relative, or no accepted
/// extension).
pub fn image_copy_extension(path: &str) -> (r: Option<String>)
    ensures
        match copy_candidate(path@) {
            Some(e) => r matches Some(x) && x@ == e,
            None => r is None,
        },
{
    let pv = chars_of(path);
    if !is_absolute(&pv) {
        return None;
    }
    match extension_of(&pv) {
        None => None,
        Some(e) => {
            let l = ascii_lower_chars(&e);
            if chars_are(&l, "png") || chars_are(&l, "jpg") || chars_are(&l, "jpeg") || chars_are(&l, "webp")
                || chars_are(&l, "gif") {
                Some(string_of(&l, 0, l.len()))
            } else {
                None
            }
        },
    }
}

/// The image blocks of a document that are copied into the store, with
/// their lower-cased extensions, in block order.
pub fn image_copy_plan(doc: &PinDocument) -> (r: Vec<(usize, String)>)
    ensures
        forall|j: int| 0 <= j < r@.len() ==> #[trigger] r@[j].0 < doc.blocks@.len() && (doc.blocks@[r@[j].0 as int] matches PinBlock::Image(img)
            && copy_candidate(img.path@) == Some(r@[j].1@)),
        forall|a: int, b: int| 0 <= a < b < r@.len() ==> #[trigger] r@[a].0 < #[trigger] r@[b].0,
        forall|i: int| 0 <= i < doc.blocks@.len() && (#[trigger] doc.blocks@[i] matches PinBlock::Image(img) && copy_candidate(img.path@) is Some)
            ==> exists|j: int| 0 <= j < r@.len() && r@[j].0 == i,
{
    let mut r: Vec<(usize, String)> = Vec::new();
    let mut i: usize = 0;
    while i < doc.blocks.len()
        invariant
            i <= doc.blocks@.len(),
            forall|j: int| 0 <= j < r@.len() ==> #[trigger] r@[j].0 < i && (doc.blocks@[r@[j].0 as int] matches PinBlock::Image(img)
                && copy_candidate(img.path@) == Some(r@[j].1@)),
            forall|a: int, b: int| 0 <= a < b < r@.len() ==> #[trigger] r@[a].0 < #[trigger] r@[b].0,
            forall|k: int| 0 <= k < i && (#[trigger] doc.blocks@[k] matches PinBlock::Image(img) && copy_candidate(img.path@) is Some)
                ==> exists|j: int| 0 <= j < r@.len() && r@[j].0 == k,
        decreases doc.blocks.len() - i,
    {
        match &doc.blocks[i] {
            PinBlock::Image(img) => {
                match image_copy_extension(img.path.as_str()) {
                    Some(e) => {
                        let ghost before = r@;
                        r.push((i, e));
                        proof {
                            assert forall|k: int| 0 <= k < i + 1 && (#[trigger] doc.blocks@[k] matches PinBlock::Image(img)
                                && copy_candidate(img.path@) is Some) implies exists|j: int| 0 <= j < r@.len() && r@[j].0 == k by {
                                if k < i {
                                    let j = choose|j: int| 0 <= j < before.len() && before[j].0 == k;
                                    assert(r@[j] == before[j]);
                                } else {
                                    assert(r@[before.len() as int].0 == k);
                                }
                            }
                        }
                    },
                    None => {},
                }
            },
            _ => {},
        }
        i += 1;
    }
    r
}

/// The document with the path of image block `i` replaced by `path` (the
/// stored copy); nothing else changes.
pub fn set_image_path(doc: &mut PinDocument, i: usize, path: String)
    requires
        i < old(doc).blocks@.len(),
        old(doc).blocks@[i as int] is Image,
    ensures
        final(doc).version == old(doc).version,
        final(doc).title == old(doc).title,
        final(doc).window == old(doc).window,
        final(doc).source == old(doc).source,
        final(doc).created_at == old(doc).created_at,
        final(doc).blocks@ == old(doc).blocks@.update(
            i as int,
            PinBlock::Image(ImageBlock { path, caption: old(doc).blocks@[i as int]->Image_0.caption }),
        ),
{
    let b = doc.blocks.remove(i);
    let nb = match b {
        PinBlock::Image(img) => PinBlock::Image(ImageBlock { path, caption: img.caption }),
        other => other,
    };
    doc.blocks.insert(i, nb);
    assert(doc.blocks@ =~= old(doc).blocks@.update(
        i as int,
        PinBlock::Image(ImageBlock { path, caption: old(doc).blocks@[i as int]->Image_0.caption }),
    ));
}

// ---------- hide ----------

/// The checks of `POST /api/pins/{id}/hide`: a missing Pin is a 404;
/// `Ok(true)` when it is already hidden (the request succeeds with no
/// change), `Ok(false)` when its window must be destroyed.
pub fn hide_request_begin(reg: &PinRegistry, pin_id: &str) -> (r: Result<bool, ErrorResponse>)
    requires
        reg.wf(),
    ensures
        match r {
            Ok(hidden) => reg@.contains_key(pin_id@) && hidden == (reg@[pin_id@].meta.state == PinState::Hidden),
            Err(e) => !reg@.contains_key(pin_id@) && e.status == 404 && e.code == PinErrorCode::PinNotFound
                && e.message@ == "pin not found: "@ + pin_id@,
        },
{
    match reg.get_meta(pin_id) {
        None => Err(err_response(STATUS_NOT_FOUND, PinErrorCode::PinNotFound, joined("pin not found: ", pin_id))),
        Some(m) => Ok(m.state == PinState::Hidden),
    }
}

/// The 500 answer when destroying the window of `pin_id` failed with `detail`.
pub fn destroy_failed_response(pin_id: &str, detail: &str) -> (r: ErrorResponse)
    ensures
        r.status == 500,
        r.code == PinErrorCode::InternalError,
        r.message@ == "failed to destroy window for "@ + pin_id@ + ": "@ + detail@,
{
    let mut m = joined("failed to destroy window for ", pin_id);
    m.append(": ");
    m.append(detail);
    err_response(STATUS_INTERNAL_SERVER_ERROR, PinErrorCode::InternalError, m)
}

/// What "hide all" answers over HTTP. The status is always 200 with the
/// `ok` body: a Pin whose window could not be closed does not stop the
/// others and does not change the answer. The second part is the line for
/// the error log, present exactly when some Pins were left visible.
pub fn hide_all_response(failed: &Vec<String>) -> (r: (u16, Option<String>))
    ensures
        r.0 == STATUS_OK,
        match r.1 {
            None => failed@.len() == 0,
            Some(line) => failed@.len() > 0
                && line@ == "some pins could not be hidden: "@ + sep_joined(texts(failed@), ", "@),
        },
{
    if failed.len() == 0 {
        return (STATUS_OK, None);
    }
    let list = join_all(failed, ", ");
    (STATUS_OK, Some(joined("some pins could not be hidden: ", list.as_str())))
}

// ---------- laws ----------

/// A new Pin whose window cannot be made leaves nothing behind: adding it
/// under a fresh id that the id checks accept and then taking it out (what
/// `new_pin_window_done` does on failure) gives back the registry from
/// before.
pub proof fn law_failed_window_undoes_creation(m: Map<Seq<char>, PinEntryView>, k: Seq<char>, e: PinEntryView)
    requires
        !m.contains_key(k),
        pin_id_error(k) is None,
    ensures
        m.insert(k, e).remove(k) == m,
{
    assert(m.insert(k, e).remove(k) =~= m);
}

/// Every header the guard lets through names a loopback host, and every
/// POST it lets through declared JSON.
pub proof fn law_guard_admits_only_local_json(host: Seq<char>, is_post: bool, content_type: Seq<char>)
    requires
        guard_verdict(host, is_post, content_type) is None,
    ensures
        localhost_host(host),
        is_post ==> is_prefix("application/json"@, content_type),
{
}

} // verus!
