//! The desktop app's window commands: which window may call what, and the
//! decisions of closing, hiding and deleting Pins and of reacting to a
//! destroyed window. The webview work is the caller's.
//!
//! Least privilege: management commands come from the manager window only;
//! a Pin's own commands come from that Pin's window only; a Pin window may
//! read its own document, the manager any document.
use vstd::prelude::*;
use crate::pin::PinDocument;
use crate::registry::{with_state, PinRegistry};
use crate::storage::{pin_id_error, validate_pin_id, PinState, WindowSizeBits};
use crate::text::{
    chars_of, int_text, is_prefix, joined, join_all, lowercase, next_sep, next_sep_at, owned,
    sep_joined, starts_with_text, string_of, text_eq, texts, unicode_lower, u64_text,
};

verus! {

/// The label of the manager window.
pub open spec fn manager_label() -> Seq<char> {
    "manager"@
}

pub open spec fn manager_label_spec(label: Seq<char>) -> bool {
    label == manager_label()
}

pub open spec fn pin_window_label_spec(label: Seq<char>) -> bool {
    is_prefix("pin_"@, label)
}

pub open spec fn pin_owner_label_spec(label: Seq<char>, pin_id: Seq<char>) -> bool {
    pin_window_label_spec(label) && label == pin_id
}

pub open spec fn can_read_spec(label: Seq<char>, pin_id: Seq<char>) -> bool {
    manager_label_spec(label) || pin_owner_label_spec(label, pin_id)
}

/// The window is the manager window.
pub fn is_manager_label(label: &str) -> (r: bool)
    ensures
        r == manager_label_spec(label@),
{
    text_eq(label, "manager")
}

/// The window is a Pin window (its label starts with `pin_`).
pub fn is_pin_window_label(label: &str) -> (r: bool)
    ensures
        r == pin_window_label_spec(label@),
{
    starts_with_text(label, "pin_")
}

/// The window is the Pin window of `pin_id`.
pub fn is_pin_owner_label(label: &str, pin_id: &str) -> (r: bool)
    ensures
        r == pin_owner_label_spec(label@, pin_id@),
{
    is_pin_window_label(label) && text_eq(label, pin_id)
}

/// The window may read the document of `pin_id`.
pub fn can_read_pin_document(label: &str, pin_id: &str) -> (r: bool)
    ensures
        r == can_read_spec(label@, pin_id@),
{
    is_manager_label(label) || is_pin_owner_label(label, pin_id)
}

pub open spec fn manager_only_text() -> Seq<char> {
    "forbidden: only manager window can call this command"@
}

pub open spec fn owner_only_text(label: Seq<char>, pin_id: Seq<char>) -> Seq<char> {
    "forbidden: window '"@ + label + "' cannot operate on pin '"@ + pin_id + "'"@
}

/// Management commands are for the manager window only.
pub fn require_manager(label: &str) -> (r: Result<(), String>)
    ensures
        match r {
            Ok(()) => manager_label_spec(label@),
            Err(e) => !manager_label_spec(label@) && e@ == manager_only_text(),
        },
{
    if !is_manager_label(label) {
        return Err(owned("forbidden: only manager window can call this command"));
    }
    Ok(())
}

/// A Pin's own commands are for its own window only.
pub fn require_pin_owner(label: &str, pin_id: &str) -> (r: Result<(), String>)
    ensures
        match r {
            Ok(()) => pin_owner_label_spec(label@, pin_id@),
            Err(e) => !pin_owner_label_spec(label@, pin_id@) && e@ == owner_only_text(label@, pin_id@),
        },
{
    if !is_pin_owner_label(label, pin_id) {
        let mut e = joined("forbidden: window '", label);
        e.append("' cannot operate on pin '");
        e.append(pin_id);
        e.append("'");
        return Err(e);
    }
    Ok(())
}

/// The document of `pin_id` as the window `label` may see it: none when it
/// may not read it or when there is no such Pin.
pub fn readable_document(reg: &PinRegistry, label: &str, pin_id: &str) -> (r: Option<PinDocument>)
    requires
        reg.wf(),
    ensures
        match r {
            Some(d) => can_read_spec(label@, pin_id@) && reg@.contains_key(pin_id@) && d@ == reg@[pin_id@].doc,
            None => !can_read_spec(label@, pin_id@) || !reg@.contains_key(pin_id@),
        },
{
    if !can_read_pin_document(label, pin_id) {
        return None;
    }
    reg.get(pin_id)
}

// ---------- external links ----------

/// The text before the first `:` of a URL (all of it when there is none).
pub open spec fn url_scheme_part(url: Seq<char>) -> Seq<char> {
    url.take(next_sep(url, ':', 0))
}

pub open spec fn allowed_scheme(s: Seq<char>) -> bool {
    s == "http"@ || s == "https"@ || s == "mailto"@
}

/// The verdict on an already lower-cased scheme: `http`, `https` and
/// `mailto` pass, anything else is refused by name.
pub fn scheme_verdict(scheme: &str) -> (r: Result<(), String>)
    ensures
        match r {
            Ok(()) => allowed_scheme(scheme@),
            Err(e) => !allowed_scheme(scheme@) && e@ == "unsupported url scheme: "@ + scheme@,
        },
{
    if text_eq(scheme, "http") || text_eq(scheme, "https") || text_eq(scheme, "mailto") {
        Ok(())
    } else {
        Err(joined("unsupported url scheme: ", scheme))
    }
}

/// Whether the window `label` may open `url` in the system browser: only
/// Pin windows may, and only for `http`, `https` and `mailto` links (the
/// scheme compared after Unicode lower-casing).
pub fn check_external_url(label: &str, url: &str) -> (r: Result<(), String>)
    ensures
        !pin_window_label_spec(label@) ==> (r matches Err(e) && e@
            == "forbidden: only pin windows can open external urls"@),
        pin_window_label_spec(label@) ==> ({
            let s = unicode_lower(url_scheme_part(url@));
            match r {
                Ok(()) => allowed_scheme(s),
                Err(e) => !allowed_scheme(s) && e@ == "unsupported url scheme: "@ + s,
            }
        }),
{
    if !is_pin_window_label(label) {
        return Err(owned("forbidden: only pin windows can open external urls"));
    }
    let v = chars_of(url);
    let end = next_sep_at(&v, ':', 0);
    proof {
        crate::text::lemma_next_sep(v@, ':', 0);
    }
    let part = string_of(&v, 0, end);
    assert(part@ == url_scheme_part(url@)) by {
        assert(v@.subrange(0, end as int) =~= url@.take(end as int));
    }
    let scheme = lowercase(part.as_str());
    scheme_verdict(scheme.as_str())
}

// ---------- close / hide / delete ----------

pub open spec fn not_found_text(pin_id: Seq<char>) -> Seq<char> {
    "pin not found: "@ + pin_id
}

/// The checks before a Pin window closes itself: the caller must be that
/// Pin's window, the id must be valid and the Pin must exist. `Ok(true)`
/// when it is already hidden (nothing to change), `Ok(false)` otherwise.
pub fn close_pin_begin(reg: &PinRegistry, label: &str, pin_id: &str) -> (r: Result<bool, String>)
    requires
        reg.wf(),
    ensures
        match r {
            Ok(hidden) => pin_owner_label_spec(label@, pin_id@) && pin_id_error(pin_id@) is None
                && reg@.contains_key(pin_id@) && hidden == (reg@[pin_id@].meta.state == PinState::Hidden),
            Err(e) => if !pin_owner_label_spec(label@, pin_id@) {
                e@ == owner_only_text(label@, pin_id@)
            } else if pin_id_error(pin_id@) is Some {
                e@ == pin_id_error(pin_id@).unwrap()
            } else {
                !reg@.contains_key(pin_id@) && e@ == not_found_text(pin_id@)
            },
        },
{
    require_pin_owner(label, pin_id)?;
    validate_pin_id(pin_id)?;
    match reg.get_meta(pin_id) {
        None => Err(joined("pin not found: ", pin_id)),
        Some(m) => Ok(m.state == PinState::Hidden),
    }
}

/// The checks before the manager hides a Pin: the caller must be the
/// manager and the Pin must exist. `Ok(true)` when it is already hidden.
pub fn hide_pin_begin(reg: &PinRegistry, label: &str, pin_id: &str) -> (r: Result<bool, String>)
    requires
        reg.wf(),
    ensures
        match r {
            Ok(hidden) => manager_label_spec(label@) && reg@.contains_key(pin_id@) && hidden == (
            reg@[pin_id@].meta.state == PinState::Hidden),
            Err(e) => if !manager_label_spec(label@) {
                e@ == manager_only_text()
            } else {
                !reg@.contains_key(pin_id@) && e@ == not_found_text(pin_id@)
            },
        },
{
    require_manager(label)?;
    match reg.get_meta(pin_id) {
        None => Err(joined("pin not found: ", pin_id)),
        Some(m) => Ok(m.state == PinState::Hidden),
    }
}

/// The checks before the manager deletes a Pin: the caller must be the
/// manager and the Pin must exist (so that no other window is destroyed).
pub fn delete_pin_begin(reg: &PinRegistry, label: &str, pin_id: &str) -> (r: Result<(), String>)
    requires
        reg.wf(),
    ensures
        match r {
            Ok(()) => manager_label_spec(label@) && reg@.contains_key(pin_id@),
            Err(e) => if !manager_label_spec(label@) {
                e@ == manager_only_text()
            } else {
                !reg@.contains_key(pin_id@) && e@ == not_found_text(pin_id@)
            },
        },
{
    require_manager(label)?;
    match reg.get_meta(pin_id) {
        None => Err(joined("pin not found: ", pin_id)),
        Some(_) => Ok(()),
    }
}

/// The state a Pin is left in when destroying its window failed after it
/// was marked hidden: visible again while the window still exists (the
/// user sees the close failed), hidden when the window is gone anyway.
pub fn state_after_failed_destroy(window_still_exists: bool) -> (s: PinState)
    ensures
        s == (if window_still_exists { PinState::Visible } else { PinState::Hidden }),
{
    if window_still_exists {
        PinState::Visible
    } else {
        PinState::Hidden
    }
}

/// The answer of "hide all" given the ids that could not be hidden.
pub fn hide_all_outcome(failed: &Vec<String>) -> (r: Result<(), String>)
    ensures
        match r {
            Ok(()) => failed@.len() == 0,
            Err(e) => failed@.len() > 0 && e@ == "failed to hide "@ + int_text(failed@.len() as int)
                + " pin(s): "@ + sep_joined(texts(failed@), ", "@),
        },
{
    if failed.len() == 0 {
        return Ok(());
    }
    let mut e = owned("failed to hide ");
    let n = u64_text(failed.len() as u64);
    e.append(n.as_str());
    e.append(" pin(s): ");
    let list = join_all(failed, ", ");
    e.append(list.as_str());
    Err(e)
}

/// Records the window size a Pin window reports for itself.
pub fn remember_pin_size(reg: &mut PinRegistry, label: &str, pin_id: &str, size: WindowSizeBits) -> (r: Result<(), String>)
    requires
        old(reg).wf(),
    ensures
        final(reg).wf(),
        final(reg).recreating_ids() == old(reg).recreating_ids(),
        !pin_owner_label_spec(label@, pin_id@) ==> (r matches Err(e) && e@ == owner_only_text(label@, pin_id@)
            && final(reg)@ == old(reg)@),
        pin_owner_label_spec(label@, pin_id@) ==> match r {
            Ok(()) => old(reg)@.contains_key(pin_id@) && final(reg)@ == old(reg)@.insert(
                pin_id@,
                crate::registry::PinEntryView {
                    doc: old(reg)@[pin_id@].doc,
                    meta: crate::storage::PinMeta { window_size: Some(size), ..old(reg)@[pin_id@].meta },
                },
            ),
            Err(e) => !old(reg)@.contains_key(pin_id@) && e@ == not_found_text(pin_id@) && final(reg)@
                == old(reg)@,
        },
{
    require_pin_owner(label, pin_id)?;
    reg.remember_window_size(pin_id, size)
}

// ---------- destroyed windows ----------

/// What a destroyed window meant for the registry.
#[derive(Debug)]
pub enum DestroyedOutcome {
    /// The manager window: nothing to do.
    Manager,
    /// The old window of a Pin being rebuilt: its rebuild mark was cleared.
    Rebuilt,
    /// A visible Pin's window went away: the Pin is now hidden; the
    /// previous state and update time are handed back for a rollback.
    Hidden(PinState, String),
    /// Nothing changed (no such Pin, or it was not visible).
    Unchanged,
}

/// A window was destroyed. A visible Pin whose window goes away without
/// being rebuilt becomes hidden (stamped `now`); the old window of a Pin
/// being rebuilt only clears the rebuild mark.
pub fn window_destroyed(reg: &mut PinRegistry, label: &str, now: String) -> (r: DestroyedOutcome)
    requires
        old(reg).wf(),
    ensures
        final(reg).wf(),
        manager_label_spec(label@) ==> r is Manager && final(reg)@ == old(reg)@ && final(reg).recreating_ids()
            == old(reg).recreating_ids(),
        !manager_label_spec(label@) && old(reg).recreating_ids().contains(label@) ==> r is Rebuilt
            && final(reg)@ == old(reg)@ && final(reg).recreating_ids() == old(reg).recreating_ids().remove(label@),
        !manager_label_spec(label@) && !old(reg).recreating_ids().contains(label@) ==> final(reg).recreating_ids()
            == old(reg).recreating_ids() && if old(reg)@.contains_key(label@) && old(reg)@[label@].meta.state
            == PinState::Visible {
            r == DestroyedOutcome::Hidden(PinState::Visible, old(reg)@[label@].meta.updated_at)
                && final(reg)@ == old(reg)@.insert(label@, with_state(old(reg)@[label@], PinState::Hidden, now))
        } else {
            r is Unchanged && final(reg)@ == old(reg)@
        },
{
    if is_manager_label(label) {
        return DestroyedOutcome::Manager;
    }
    if reg.is_recreating(label) {
        reg.unmark_recreating(label);
        return DestroyedOutcome::Rebuilt;
    }
    if reg.is_still_visible(label) {
        match reg.set_state_at(label, PinState::Hidden, now) {
            Ok((s, u)) => DestroyedOutcome::Hidden(s, u),
            Err(_) => DestroyedOutcome::Unchanged,
        }
    } else {
        DestroyedOutcome::Unchanged
    }
}

// ---------- laws ----------

/// A window that is neither the manager nor the Pin's own window can never
/// read a Pin's document; the manager can read every Pin's.
pub proof fn law_read_permission(label: Seq<char>, pin_id: Seq<char>)
    ensures
        !manager_label_spec(label) && label != pin_id ==> !can_read_spec(label, pin_id),
        manager_label_spec(label) ==> can_read_spec(label, pin_id),
        pin_window_label_spec(label) && label == pin_id ==> can_read_spec(label, pin_id),
{
}

/// The manager window is not a Pin window, so it can never pass as a Pin's
/// owner.
pub proof fn law_manager_is_no_pin_owner(pin_id: Seq<char>)
    ensures
        !pin_owner_label_spec(manager_label(), pin_id),
{
    reveal_strlit("manager");
    reveal_strlit("pin_");
    assert("manager"@.take(4)[0] != "pin_"@[0]);
}

} // verus!
