//! The parts of a Pin window's set-up that are not geometry: its label and
//! URL (the URL carries only the pin id; the document is fetched by the
//! window), whether it stays on top, an explicit position, and when the
//! automatic height fitting may act. Sizes and positions are computed in
//! floating point by the caller.
use vstd::prelude::*;
use crate::pin::PinDocument;
use crate::registry::PinRegistry;
use crate::text::{is_prefix, joined, starts_with_text};

verus! {

/// `index.html?pinId=<pin_id>`: the page a Pin window loads.
pub fn pin_window_url(pin_id: &str) -> (r: String)
    ensures
        r@ == "index.html?pinId="@ + pin_id@,
{
    joined("index.html?pinId=", pin_id)
}

/// A Pin window stays on top unless its document says otherwise.
pub fn always_on_top_of(doc: &PinDocument) -> (r: bool)
    ensures
        r == match doc.window {
            Some(w) => match w.always_on_top {
                Some(b) => b,
                None => true,
            },
            None => true,
        },
{
    match &doc.window {
        Some(w) => match w.always_on_top {
            Some(b) => b,
            None => true,
        },
        None => true,
    }
}

/// The position the document asks for: only when it gives both `x` and
/// `y` (otherwise the window is cascaded).
pub fn explicit_position(doc: &PinDocument) -> (r: Option<(i32, i32)>)
    ensures
        r == match doc.window {
            Some(w) => match (w.x, w.y) {
                (Some(x), Some(y)) => Some((x, y)),
                _ => None,
            },
            None => None,
        },
{
    match &doc.window {
        Some(w) => match (w.x, w.y) {
            (Some(x), Some(y)) => Some((x, y)),
            _ => None,
        },
        None => None,
    }
}

/// Whether the height of the window `pin_id` may be fitted to its content
/// (asked after the id and the measured height were checked): the window
/// must exist and be a Pin window; `Ok(false)` when the user resized it
/// (a remembered size always wins), `Ok(true)` otherwise.
pub fn fit_height_gate(reg: &PinRegistry, pin_id: &str, window_exists: bool) -> (r: Result<bool, String>)
    requires
        reg.wf(),
    ensures
        !window_exists ==> (r matches Err(e) && e@ == "window not found: "@ + pin_id@),
        window_exists && !is_prefix("pin_"@, pin_id@) ==> (r matches Err(e) && e@
            == "fit_pin_window_height can only be called on pin windows, got label: "@ + pin_id@),
        window_exists && is_prefix("pin_"@, pin_id@) ==> r == Ok::<bool, String>(
            !(reg@.contains_key(pin_id@) && reg@[pin_id@].meta.window_size is Some),
        ),
{
    if !window_exists {
        return Err(joined("window not found: ", pin_id));
    }
    if !starts_with_text(pin_id, "pin_") {
        return Err(joined("fit_pin_window_height can only be called on pin windows, got label: ", pin_id));
    }
    match reg.get_meta(pin_id) {
        Some(m) => Ok(m.window_size.is_none()),
        None => Ok(true),
    }
}

} // verus!
