//! Persistent records of Pins: their states, the metadata kept in the state
//! file, the checks on pin ids, and where the data directory's files live.
use vstd::prelude::*;
use crate::path::join_path;
use crate::pin::{clone_opt_source, PinSource};
use crate::text::{
    append_u64, byte_len, chars_of, chars_are, contains_char, contains_chars, contains_text,
    has_char, int_text, joined, owned, utf8_len,
};
use crate::path::join;

verus! {

/// Lifecycle state of a Pin: created → visible ↔ hidden; created → failed.
#[derive(Debug, Clone, Copy, PartialEq, Eq, Structural)]
pub enum PinState {
    /// Its window is showing.
    Visible,
    /// Its window is closed; the record stays and can be shown again.
    Hidden,
    /// Its window could not be created, or its document was lost.
    Failed,
}

/// A window size the user chose, kept as the bit patterns of the two
/// logical-pixel values (`f64::to_bits` of width and height).
#[derive(Debug, Clone, Copy, PartialEq, Eq, Structural)]
pub struct WindowSizeBits {
    pub width_bits: u64,
    pub height_bits: u64,
}

/// One Pin's entry in the state file.
#[derive(Debug)]
pub struct PinMeta {
    pub pin_id: String,
    pub title: String,
    /// ISO 8601 creation time.
    pub created_at: String,
    /// ISO 8601 time of the last state change.
    pub updated_at: String,
    pub state: PinState,
    pub source: Option<PinSource>,
    /// The size the user last resized the window to, if any.
    pub window_size: Option<WindowSizeBits>,
}

impl Clone for PinMeta {
    fn clone(&self) -> (r: Self)
        ensures
            r == *self,
    {
        PinMeta {
            pin_id: self.pin_id.clone(),
            title: self.title.clone(),
            created_at: self.created_at.clone(),
            updated_at: self.updated_at.clone(),
            state: self.state,
            source: clone_opt_source(&self.source),
            window_size: self.window_size,
        }
    }
}

/// The state file: every Pin's metadata, oldest first.
#[derive(Debug)]
pub struct StateFile {
    pub version: u32,
    pub pins: Vec<PinMeta>,
}

impl Default for StateFile {
    fn default() -> (r: Self)
        ensures
            r.version == 1,
            r.pins@.len() == 0,
    {
        StateFile { version: 1, pins: Vec::new() }
    }
}

// ---------- pin ids ----------

/// Why `id` may not name a Pin: empty, longer than 128 bytes, holding a path
/// separator, `..` or a NUL, or the reserved window label `manager`.
pub open spec fn pin_id_error(id: Seq<char>) -> Option<Seq<char>> {
    if id.len() == 0 {
        Some("pin_id must be non-empty"@)
    } else if utf8_len(id) > 128 {
        Some("pin_id too long (max 128 chars): "@ + int_text(utf8_len(id) as int) + " chars"@)
    } else if contains_char(id, '/') || contains_char(id, '\\') || contains_text(id, ".."@)
        || contains_char(id, '\0') {
        Some("invalid pin_id (path traversal detected): "@ + id)
    } else if id == "manager"@ {
        Some("pin_id 'manager' is reserved and cannot be used"@)
    } else {
        None
    }
}

/// Checks that `pin_id` can safely name a file and a window.
pub fn validate_pin_id(pin_id: &str) -> (r: Result<(), String>)
    ensures
        match pin_id_error(pin_id@) {
            None => r is Ok,
            Some(m) => r matches Err(e) && e@ == m,
        },
{
    let v = chars_of(pin_id);
    if v.len() == 0 {
        return Err(owned("pin_id must be non-empty"));
    }
    let n = byte_len(pin_id);
    if n > 128 {
        let mut m = owned("pin_id too long (max 128 chars): ");
        append_u64(&mut m, n as u64);
        m.append(" chars");
        return Err(m);
    }
    let dots = chars_of("..");
    if has_char(&v, '/') || has_char(&v, '\\') || contains_chars(&v, &dots) || has_char(&v, '\0') {
        return Err(joined("invalid pin_id (path traversal detected): ", pin_id));
    }
    if chars_are(&v, "manager") {
        return Err(owned("pin_id 'manager' is reserved and cannot be used"));
    }
    Ok(())
}

// ---------- data directory layout ----------

/// `<home>/.agent-pin`.
pub open spec fn data_dir_path(home: Seq<char>) -> Seq<char> {
    join_path(home, ".agent-pin"@)
}

/// The data directory under the home directory `home`.
pub fn data_dir(home: &str) -> (r: String)
    ensures
        r@ == data_dir_path(home@),
{
    join(home, ".agent-pin")
}

/// `<home>/.agent-pin/pins`, where each Pin's document is kept.
pub fn pins_dir(home: &str) -> (r: String)
    ensures
        r@ == join_path(data_dir_path(home@), "pins"@),
{
    let d = data_dir(home);
    join(d.as_str(), "pins")
}

/// `<home>/.agent-pin/images`, where copies of pinned images are kept.
pub fn images_dir(home: &str) -> (r: String)
    ensures
        r@ == join_path(data_dir_path(home@), "images"@),
{
    let d = data_dir(home);
    join(d.as_str(), "images")
}

/// `<home>/.agent-pin/state.json`.
pub fn state_file_path(home: &str) -> (r: String)
    ensures
        r@ == join_path(data_dir_path(home@), "state.json"@),
{
    let d = data_dir(home);
    join(d.as_str(), "state.json")
}

/// `<home>/.agent-pin/pins/<pin_id>.json`.
pub fn pin_file_path(home: &str, pin_id: &str) -> (r: String)
    ensures
        r@ == join_path(join_path(data_dir_path(home@), "pins"@), pin_id@ + ".json"@),
{
    let d = pins_dir(home);
    let f = joined(pin_id, ".json");
    join(d.as_str(), f.as_str())
}

// ---------- stored image copies ----------

/// `image_<millis>_<pid>_<counter>.<ext>`: the name of a copied image in the
/// image store (the time, the process and a per-process counter keep names
/// apart).
pub open spec fn image_file_name_text(millis: u64, pid: u32, counter: u64, ext: Seq<char>) -> Seq<char> {
    "image_"@ + int_text(millis as int) + "_"@ + int_text(pid as int) + "_"@ + int_text(counter as int) + "."@ + ext
}

pub fn image_file_name(millis: u64, pid: u32, counter: u64, ext: &str) -> (r: String)
    ensures
        r@ == image_file_name_text(millis, pid, counter, ext@),
{
    let mut r = owned("image_");
    append_u64(&mut r, millis);
    r.append("_");
    append_u64(&mut r, pid as u64);
    r.append("_");
    append_u64(&mut r, counter);
    r.append(".");
    r.append(ext);
    r
}

/// The home directory the data directory lives under: the user's home
/// when it is known (`USERPROFILE`, else `HOME`), else the current
/// directory `.`.
pub fn home_or_fallback(home: Option<String>) -> (r: String)
    ensures
        match home {
            Some(h) => r == h,
            None => r@ == "."@,
        },
{
    match home {
        Some(h) => h,
        None => owned("."),
    }
}

} // verus!
