//! Showing and hiding Pins: the decisions the HTTP service, the manager
//! window and the tray share. The window work itself (showing, creating and
//! destroying webviews) is done by the caller between these steps; each step
//! here takes what that work reported and says what happens next.
use vstd::prelude::*;
use crate::registry::{comes_before, keep_of, law_failed_state_change_restores, lists, save_failed_text, sorted_metas, undo_set_state, with_state, PinEntryView, PinRegistry};
use crate::storage::PinState;
use crate::pin::PinDocument;
use crate::text::{joined, owned};

verus! {

/// How `show_pin` creates a window that is missing.
#[derive(Debug, Clone, Copy, PartialEq, Eq, Structural)]
pub enum ShowPinMode {
    /// Clean up, create and mark the Pin visible before answering.
    Sync,
    /// Mark the Pin visible, answer at once and create the window in the background.
    AsyncCreate,
}

/// Why a Pin could not be shown.
#[derive(Debug)]
pub enum ShowPinError {
    /// The Pin (its metadata or its document) does not exist.
    NotFound(String),
    /// The Pin is in the failed state and cannot be shown.
    Failed(String),
    /// Its window could not be created.
    WindowCreate(String),
    /// Persisting the change (or some other internal step) failed.
    Internal(String),
}

/// The text of a `ShowPinError` (its display form).
pub open spec fn show_error_text(e: ShowPinError) -> Seq<char> {
    match e {
        ShowPinError::NotFound(m) => "pin not found: "@ + m@,
        ShowPinError::Failed(m) => "pin is failed: "@ + m@,
        ShowPinError::WindowCreate(m) => "failed to create pin window: "@ + m@,
        ShowPinError::Internal(m) => m@,
    }
}

impl ShowPinError {
    /// The error as text, for callers that report it as a string.
    pub fn to_string(&self) -> (r: String)
        ensures
            r@ == show_error_text(*self),
    {
        match self {
            ShowPinError::NotFound(m) => joined("pin not found: ", m.as_str()),
            ShowPinError::Failed(m) => joined("pin is failed: ", m.as_str()),
            ShowPinError::WindowCreate(m) => joined("failed to create pin window: ", m.as_str()),
            ShowPinError::Internal(m) => owned(m.as_str()),
        }
    }
}

/// The first step of `show_pin`: the Pin must exist and not be failed; its
/// current state is handed back.
pub fn show_pin_begin(reg: &PinRegistry, pin_id: &str) -> (r: Result<PinState, ShowPinError>)
    requires
        reg.wf(),
    ensures
        match r {
            Ok(s) => reg@.contains_key(pin_id@) && s == reg@[pin_id@].meta.state && s
                != PinState::Failed,
            Err(ShowPinError::NotFound(m)) => !reg@.contains_key(pin_id@) && m@ == pin_id@,
            Err(ShowPinError::Failed(m)) => reg@.contains_key(pin_id@) && reg@[pin_id@].meta.state
                == PinState::Failed && m@ == pin_id@,
            Err(_) => false,
        },
{
    match reg.get_meta(pin_id) {
        None => Err(ShowPinError::NotFound(owned(pin_id))),
        Some(m) => {
            if m.state == PinState::Failed {
                Err(ShowPinError::Failed(owned(pin_id)))
            } else {
                Ok(m.state)
            }
        },
    }
}

/// An existing window of the Pin was shown again: a Pin not yet visible
/// becomes visible (stamped `now`), and the previous state and update time
/// come back for a rollback; a visible (or meanwhile deleted) Pin is left
/// alone (`None`).
pub fn existing_window_shown(reg: &mut PinRegistry, pin_id: &str, now: String) -> (r: Option<(PinState, String)>)
    requires
        old(reg).wf(),
    ensures
        final(reg).wf(),
        final(reg).recreating_ids() == old(reg).recreating_ids(),
        match r {
            None => (!old(reg)@.contains_key(pin_id@) || old(reg)@[pin_id@].meta.state == PinState::Visible)
                && final(reg)@ == old(reg)@,
            Some((s, u)) => old(reg)@.contains_key(pin_id@) && old(reg)@[pin_id@].meta.state != PinState::Visible
                && s == old(reg)@[pin_id@].meta.state && u == old(reg)@[pin_id@].meta.updated_at
                && final(reg)@ == old(reg)@.insert(pin_id@, with_state(old(reg)@[pin_id@], PinState::Visible, now)),
        },
{
    let visible = reg.is_still_visible(pin_id);
    if visible {
        None
    } else {
        match reg.set_state_at(pin_id, PinState::Visible, now) {
            Ok(prev) => Some(prev),
            Err(_) => None,
        }
    }
}

/// Before a window is (re)built: the Pin's document is fetched, and when an
/// old window is still there (`had_window`) the Pin is marked as being
/// rebuilt, so that the old window's destruction does not hide it.
pub fn prepare_rebuild(reg: &mut PinRegistry, pin_id: &str, had_window: bool) -> (r: Result<PinDocument, ShowPinError>)
    requires
        old(reg).wf(),
    ensures
        final(reg).wf(),
        final(reg)@ == old(reg)@,
        match r {
            Ok(d) => old(reg)@.contains_key(pin_id@) && d@ == old(reg)@[pin_id@].doc
                && final(reg).recreating_ids() == (if had_window {
                    old(reg).recreating_ids().insert(pin_id@)
                } else {
                    old(reg).recreating_ids()
                }),
            Err(ShowPinError::NotFound(m)) => !old(reg)@.contains_key(pin_id@) && m@
                == "doc missing for "@ + pin_id@ && final(reg).recreating_ids() == old(reg).recreating_ids(),
            Err(_) => false,
        },
{
    match reg.get(pin_id) {
        None => Err(ShowPinError::NotFound(joined("doc missing for ", pin_id))),
        Some(d) => {
            if had_window {
                reg.mark_recreating(pin_id);
            }
            Ok(d)
        },
    }
}

/// Creating the window failed: the rebuild mark set by `prepare_rebuild`
/// is cleared and the failure is reported.
pub fn rebuild_failed(reg: &mut PinRegistry, pin_id: &str, had_window: bool, err: String) -> (r: ShowPinError)
    requires
        old(reg).wf(),
    ensures
        final(reg).wf(),
        final(reg)@ == old(reg)@,
        final(reg).recreating_ids() == (if had_window {
            old(reg).recreating_ids().remove(pin_id@)
        } else {
            old(reg).recreating_ids()
        }),
        r == ShowPinError::WindowCreate(err),
{
    if had_window {
        reg.unmark_recreating(pin_id);
    }
    ShowPinError::WindowCreate(err)
}

/// Marking the Pin visible failed (`err`): the rebuild mark is cleared and
/// the failure is reported as internal.
pub fn mark_visible_failed(reg: &mut PinRegistry, pin_id: &str, had_window: bool, err: String) -> (r: ShowPinError)
    requires
        old(reg).wf(),
    ensures
        final(reg).wf(),
        final(reg)@ == old(reg)@,
        final(reg).recreating_ids() == (if had_window {
            old(reg).recreating_ids().remove(pin_id@)
        } else {
            old(reg).recreating_ids()
        }),
        r == ShowPinError::Internal(err),
{
    if had_window {
        reg.unmark_recreating(pin_id);
    }
    ShowPinError::Internal(err)
}

/// What a synchronous show does after its window was made.
pub enum SyncShowAction {
    /// The Pin is marked visible in memory; write the state file and settle
    /// with `sync_show_saved`, passing back the previous state and update
    /// time.
    Save(PinState, String),
    /// Destroy the window just made, then answer with the error.
    DestroyThenFail(ShowPinError),
    /// Answer with the error; there is no new window.
    Fail(ShowPinError),
}

/// The step of a synchronous show after the window was (re)built
/// (`created`). A failed creation clears the rebuild mark and is reported;
/// a made window marks the Pin visible (stamped `now`), to be saved next;
/// a Pin that vanished meanwhile gets its new window destroyed.
pub fn sync_window_created(
    reg: &mut PinRegistry,
    pin_id: &str,
    had_window: bool,
    created: Result<(), String>,
    now: String,
) -> (r: SyncShowAction)
    requires
        old(reg).wf(),
    ensures
        final(reg).wf(),
        match created {
            Err(e) => r == SyncShowAction::Fail(ShowPinError::WindowCreate(e)) && final(reg)@ == old(reg)@
                && final(reg).recreating_ids() == (if had_window {
                old(reg).recreating_ids().remove(pin_id@)
            } else {
                old(reg).recreating_ids()
            }),
            Ok(()) => final(reg).recreating_ids() == old(reg).recreating_ids() && if old(reg)@.contains_key(
                pin_id@,
            ) {
                r == SyncShowAction::Save(old(reg)@[pin_id@].meta.state, old(reg)@[pin_id@].meta.updated_at)
                    && final(reg)@ == old(reg)@.insert(pin_id@, with_state(old(reg)@[pin_id@], PinState::Visible, now))
            } else {
                r matches SyncShowAction::DestroyThenFail(ShowPinError::Internal(m)) && m@ == "pin not found: "@
                    + pin_id@ && final(reg)@ == old(reg)@
            },
        },
{
    match created {
        Err(e) => SyncShowAction::Fail(rebuild_failed(reg, pin_id, had_window, e)),
        Ok(()) => match reg.set_state_at(pin_id, PinState::Visible, now) {
            Ok((s, u)) => SyncShowAction::Save(s, u),
            Err(m) => SyncShowAction::DestroyThenFail(ShowPinError::Internal(m)),
        },
    }
}

/// The last step of a synchronous show, once the state file was written
/// (`written`): success keeps the Pin visible; a failed write puts back the
/// previous state and update time and is answered as internal, after the
/// caller destroys the new window.
pub fn sync_show_saved(
    reg: &mut PinRegistry,
    pin_id: &str,
    prev_state: PinState,
    prev_updated: String,
    written: Result<(), String>,
) -> (r: Result<(), ShowPinError>)
    requires
        old(reg).wf(),
    ensures
        final(reg).wf(),
        final(reg).recreating_ids() == old(reg).recreating_ids(),
        match written {
            Ok(()) => r is Ok && final(reg)@ == old(reg)@,
            Err(w) => r matches Err(ShowPinError::Internal(m)) && m@ == save_failed_text(w@) && final(reg)@
                == undo_set_state(old(reg)@, pin_id@, prev_state, prev_updated),
        },
{
    match reg.commit_set_state(pin_id, prev_state, prev_updated, written) {
        Ok(()) => Ok(()),
        Err(m) => Err(ShowPinError::Internal(m)),
    }
}

/// A synchronous show that succeeds leaves the Pin visible: marking it
/// visible after its window was made, then a successful save, keeps it in
/// the registry in the visible state; a failed save gives back the registry
/// from before.
pub proof fn law_sync_show_ends_visible_or_unchanged(m: Map<Seq<char>, PinEntryView>, k: Seq<char>, now: String)
    requires
        m.contains_key(k),
    ensures
        ({
            let shown = m.insert(k, with_state(m[k], PinState::Visible, now));
            &&& shown.contains_key(k)
            &&& shown[k].meta.state == PinState::Visible
            &&& shown[k].doc == m[k].doc
            &&& undo_set_state(shown, k, m[k].meta.state, m[k].meta.updated_at) == m
        }),
{
    law_failed_state_change_restores(m, k, PinState::Visible, now);
}

/// A synchronous show whose window cannot be made leaves no rebuild mark
/// behind: the mark `prepare_rebuild` set for an old window is cleared
/// again, so the set of Pins being rebuilt is what it was before.
pub proof fn law_failed_rebuild_clears_mark(ids: Set<Seq<char>>, k: Seq<char>, had_window: bool)
    requires
        !ids.contains(k),
    ensures
        ({
            let marked = if had_window { ids.insert(k) } else { ids };
            let cleared = if had_window { marked.remove(k) } else { marked };
            &&& !cleared.contains(k)
            &&& cleared == ids
        }),
{
    assert(ids.insert(k).remove(k) =~= ids);
}

/// The start of a background window creation: it goes on only while the
/// Pin is still visible; otherwise (hidden meanwhile) the rebuild mark is
/// cleared and the creation is cancelled.
pub fn async_create_begin(reg: &mut PinRegistry, pin_id: &str) -> (go_on: bool)
    requires
        old(reg).wf(),
    ensures
        final(reg).wf(),
        final(reg)@ == old(reg)@,
        go_on == (old(reg)@.contains_key(pin_id@) && old(reg)@[pin_id@].meta.state == PinState::Visible),
        final(reg).recreating_ids() == (if go_on {
            old(reg).recreating_ids()
        } else {
            old(reg).recreating_ids().remove(pin_id@)
        }),
{
    let go_on = reg.is_still_visible(pin_id);
    if !go_on {
        reg.unmark_recreating(pin_id);
    }
    go_on
}

/// How a background window creation ended.
#[derive(Debug)]
pub enum AsyncCreateOutcome {
    /// The window is up and the Pin is visible.
    Ready,
    /// The Pin was hidden while its window was being made; the new window
    /// must be destroyed again.
    Cancelled,
    /// The window could not be created; the Pin was set back to hidden.
    Failed(String),
}

/// What follows a background window creation. `created` is the creation's
/// result and `window_exists` whether a window of the Pin exists now.
/// - Creation failed, but a window exists and the Pin is still visible (a
///   concurrent creation won): ready, rebuild mark cleared.
/// - Creation failed otherwise: rebuild mark cleared, Pin set hidden
///   (stamped `now`), failed.
/// - Created, but the Pin was hidden meanwhile: rebuild mark cleared,
///   cancelled (the caller destroys the new window).
/// - Created and still visible: the visible state is confirmed (stamped
///   `now`) when the window exists; ready.
pub fn async_create_finished(
    reg: &mut PinRegistry,
    pin_id: &str,
    had_window: bool,
    created: Result<(), String>,
    window_exists: bool,
    now: String,
) -> (r: AsyncCreateOutcome)
    requires
        old(reg).wf(),
    ensures
        final(reg).wf(),
        ({
            let still = old(reg)@.contains_key(pin_id@) && old(reg)@[pin_id@].meta.state == PinState::Visible;
            let cleared = if had_window {
                old(reg).recreating_ids().remove(pin_id@)
            } else {
                old(reg).recreating_ids()
            };
            match created {
                Err(e) => if window_exists && still {
                    r is Ready && final(reg)@ == old(reg)@ && final(reg).recreating_ids() == cleared
                } else {
                    r == AsyncCreateOutcome::Failed(e) && final(reg).recreating_ids() == cleared
                        && final(reg)@ == (if old(reg)@.contains_key(pin_id@) {
                        old(reg)@.insert(pin_id@, with_state(old(reg)@[pin_id@], PinState::Hidden, now))
                    } else {
                        old(reg)@
                    })
                },
                Ok(()) => if !still {
                    r is Cancelled && final(reg)@ == old(reg)@ && final(reg).recreating_ids()
                        == old(reg).recreating_ids().remove(pin_id@)
                } else {
                    r is Ready && final(reg).recreating_ids() == old(reg).recreating_ids()
                        && final(reg)@ == (if window_exists {
                        old(reg)@.insert(pin_id@, with_state(old(reg)@[pin_id@], PinState::Visible, now))
                    } else {
                        old(reg)@
                    })
                },
            }
        }),
{
    let still = reg.is_still_visible(pin_id);
    match created {
        Err(e) => {
            if window_exists && still {
                if had_window {
                    reg.unmark_recreating(pin_id);
                }
                AsyncCreateOutcome::Ready
            } else {
                if had_window {
                    reg.unmark_recreating(pin_id);
                }
                let _ = reg.set_state_at(pin_id, PinState::Hidden, now);
                AsyncCreateOutcome::Failed(e)
            }
        },
        Ok(()) => {
            if !still {
                reg.unmark_recreating(pin_id);
                AsyncCreateOutcome::Cancelled
            } else {
                if window_exists {
                    let _ = reg.set_state_at(pin_id, PinState::Visible, now);
                }
                AsyncCreateOutcome::Ready
            }
        },
    }
}

/// The ids of the visible Pins, in the registry's list order (newest
/// first): the Pins "hide all" acts on.
pub fn visible_pin_ids(reg: &PinRegistry) -> (r: Vec<String>)
    requires
        reg.wf(),
    ensures
        forall|j: int| 0 <= j < r@.len() ==> reg@.contains_key((#[trigger] r@[j])@)
            && reg@[r@[j]@].meta.state == PinState::Visible,
        forall|k: Seq<char>| #[trigger] reg@.contains_key(k) && reg@[k].meta.state == PinState::Visible
            ==> exists|j: int| 0 <= j < r@.len() && (#[trigger] r@[j])@ == k,
        forall|i: int, j: int| 0 <= i < j < r@.len() ==> (#[trigger] r@[i])@ != (#[trigger] r@[j])@,
        forall|i: int, j: int| 0 <= i < j < r@.len() ==> comes_before(
            reg@[(#[trigger] r@[i])@].meta,
            reg@[(#[trigger] r@[j])@].meta,
            false,
            true,
        ),
{
    let metas = reg.list();
    let mut ids: Vec<String> = Vec::new();
    let ghost mut src: Seq<int> = Seq::empty();
    let mut i: usize = 0;
    while i < metas.len()
        invariant
            i <= metas@.len(),
            lists(reg@, metas@, keep_of(false)),
            sorted_metas(metas@, false, true),
            src.len() == ids@.len(),
            forall|j: int| 0 <= j < src.len() ==> 0 <= #[trigger] src[j] < i && ids@[j]@
                == metas@[src[j]].pin_id@ && metas@[src[j]].state == PinState::Visible,
            forall|a: int, b: int| 0 <= a < b < src.len() ==> #[trigger] src[a] < #[trigger] src[b],
            forall|x: int| 0 <= x < i && (#[trigger] metas@[x]).state == PinState::Visible ==> exists|j: int|
                0 <= j < src.len() && src[j] == x,
        decreases metas.len() - i,
    {
        if metas[i].state == PinState::Visible {
            ids.push(metas[i].pin_id.clone());
            proof {
                let old_src = src;
                src = src.push(i as int);
                assert forall|x: int| 0 <= x < i + 1 && (#[trigger] metas@[x]).state == PinState::Visible implies exists|j: int|
                    0 <= j < src.len() && src[j] == x by {
                    if x < i {
                        let j = choose|j: int| 0 <= j < old_src.len() && old_src[j] == x;
                        assert(src[j] == x);
                    } else {
                        assert(src[old_src.len() as int] == x);
                    }
                }
            }
        }
        i += 1;
    }
    proof {
        assert forall|k: Seq<char>| #[trigger] reg@.contains_key(k) && reg@[k].meta.state == PinState::Visible
            implies exists|j: int| 0 <= j < ids@.len() && (#[trigger] ids@[j])@ == k by {
            assert(keep_of(false)(reg@[k].meta));
            let x = choose|x: int| 0 <= x < metas@.len() && (#[trigger] metas@[x]).pin_id@ == k;
            assert(metas@[x] == reg@[k].meta);
            let j = choose|j: int| 0 <= j < src.len() && src[j] == x;
            assert(ids@[j]@ == k);
        }
        assert forall|j: int| 0 <= j < ids@.len() implies reg@.contains_key((#[trigger] ids@[j])@)
            && reg@[ids@[j]@].meta.state == PinState::Visible by {
            assert(0 <= src[j] < metas@.len());
        }
        assert forall|a: int, b: int| 0 <= a < b < ids@.len() implies (#[trigger] ids@[a])@ != (#[trigger] ids@[b])@ by {
            assert(src[a] < src[b]);
            assert(metas@[src[a]].pin_id@ != metas@[src[b]].pin_id@);
        }
        assert forall|a: int, b: int| 0 <= a < b < ids@.len() implies comes_before(
            reg@[(#[trigger] ids@[a])@].meta,
            reg@[(#[trigger] ids@[b])@].meta,
            false,
            true,
        ) by {
            assert(src[a] < src[b]);
            assert(reg@[ids@[a]@].meta == metas@[src[a]]);
            assert(reg@[ids@[b]@].meta == metas@[src[b]]);
            assert(comes_before(metas@[src[a]], metas@[src[b]], false, true));
        }
    }
    ids
}

// ---------- hide all ----------

/// Where a run of "hide all" stands: the Pins it acts on, how many of them
/// are settled, whether the current one waits for its hidden state to be
/// saved, and the Pins that could not be hidden so far.
pub struct HideAllView {
    pub ids: Seq<Seq<char>>,
    pub done: nat,
    pub saving: bool,
    pub failed: Seq<Seq<char>>,
}

/// A run of "hide all". Each Pin in turn has its window closed and, when
/// that worked, is saved as hidden; a Pin for which either step failed is
/// noted, and the run goes on with the next one.
pub struct HideAllRun {
    ids: Vec<String>,
    done: usize,
    saving: bool,
    failed: Vec<String>,
}

impl View for HideAllRun {
    type V = HideAllView;

    closed spec fn view(&self) -> HideAllView {
        HideAllView {
            ids: self.ids@.map_values(|s: String| s@),
            done: self.done as nat,
            saving: self.saving,
            failed: self.failed@.map_values(|s: String| s@),
        }
    }
}

/// A run's counters fit its list.
pub open spec fn hide_all_wf(v: HideAllView) -> bool {
    v.done <= v.ids.len() && (v.saving ==> v.done < v.ids.len())
}

/// The run after the window of its current Pin was closed (`ok`) or not:
/// on success the Pin waits to be saved; on failure it is noted and the run
/// moves on. Nothing changes when no Pin waits for its window.
pub open spec fn after_closed(v: HideAllView, ok: bool) -> HideAllView {
    if v.saving || v.done >= v.ids.len() {
        v
    } else if ok {
        HideAllView { saving: true, ..v }
    } else {
        HideAllView { done: v.done + 1, failed: v.failed.push(v.ids[v.done as int]), ..v }
    }
}

/// The run after the current Pin was saved as hidden (`ok`) or not: the
/// run moves on, noting the Pin when saving failed. Nothing changes when no
/// Pin waits to be saved.
pub open spec fn after_saved(v: HideAllView, ok: bool) -> HideAllView {
    if !v.saving {
        v
    } else if ok {
        HideAllView { done: v.done + 1, saving: false, ..v }
    } else {
        HideAllView { done: v.done + 1, saving: false, failed: v.failed.push(v.ids[v.done as int]), ..v }
    }
}

/// The run after one Pin went through both steps: its window closed (or
/// not), then, only when it closed, saved as hidden (or not).
pub open spec fn after_pin(v: HideAllView, closed: bool, saved: bool) -> HideAllView {
    if closed {
        after_saved(after_closed(v, true), saved)
    } else {
        after_closed(v, false)
    }
}

impl HideAllRun {
    #[verifier::type_invariant]
    spec fn counters_fit(self) -> bool {
        hide_all_wf(self@)
    }

    /// A run over `ids` (the visible Pins, see `visible_pin_ids`), with
    /// nothing done yet.
    pub fn start(ids: Vec<String>) -> (r: Self)
        ensures
            hide_all_wf(r@),
            r@.ids == ids@.map_values(|s: String| s@),
            r@.done == 0,
            !r@.saving,
            r@.failed == Seq::<Seq<char>>::empty(),
    {
        let r = HideAllRun { ids, done: 0, saving: false, failed: Vec::new() };
        assert(r@.failed =~= Seq::<Seq<char>>::empty());
        r
    }

    /// The Pin whose window is to be closed next; none once every Pin is
    /// settled (or while the current one waits to be saved).
    pub fn next_pin(&self) -> (r: Option<String>)
        ensures
            match r {
                Some(id) => !self@.saving && self@.done < self@.ids.len() && id@ == self@.ids[self@.done as int],
                None => self@.saving || self@.done == self@.ids.len(),
            },
    {
        proof {
            use_type_invariant(self);
        }
        if self.saving || self.done >= self.ids.len() {
            None
        } else {
            Some(self.ids[self.done].clone())
        }
    }

    /// Takes what closing the current Pin's window gave; answers whether the
    /// Pin is now to be saved as hidden.
    pub fn window_closed(&mut self, closed: Result<(), String>) -> (save: bool)
        ensures
            hide_all_wf(final(self)@),
            final(self)@ == after_closed(old(self)@, closed is Ok),
            save == (!old(self)@.saving && old(self)@.done < old(self)@.ids.len() && closed is Ok),
    {
        proof {
            use_type_invariant(&*self);
        }
        if self.saving || self.done >= self.ids.len() {
            return false;
        }
        match closed {
            Ok(()) => {
                self.saving = true;
                true
            },
            Err(_) => {
                let id = self.ids[self.done].clone();
                let mut f: Vec<String> = Vec::new();
                std::mem::swap(&mut f, &mut self.failed);
                f.push(id);
                self.failed = f;
                self.done = self.done + 1;
                proof {
                    assert(self@.failed =~= old(self)@.failed.push(old(self)@.ids[old(self)@.done as int]));
                    assert(self@.ids =~= old(self)@.ids);
                }
                false
            },
        }
    }

    /// Takes what saving the current Pin as hidden gave, and moves on.
    pub fn saved(&mut self, saved: Result<(), String>)
        ensures
            hide_all_wf(final(self)@),
            final(self)@ == after_saved(old(self)@, saved is Ok),
    {
        proof {
            use_type_invariant(&*self);
        }
        if !self.saving || self.done >= self.ids.len() {
            return;
        }
        let ghost v = self@;
        if saved.is_err() {
            let id = self.ids[self.done].clone();
            let mut f: Vec<String> = Vec::new();
            std::mem::swap(&mut f, &mut self.failed);
            f.push(id);
            self.failed = f;
            proof {
                assert(self@.failed =~= v.failed.push(v.ids[v.done as int]));
            }
        }
        self.saving = false;
        self.done = self.done + 1;
        proof {
            assert(self@.ids =~= v.ids);
            if saved is Ok {
                assert(self@.failed =~= v.failed);
            }
        }
    }

    /// The Pins that could not be hidden, in the order they were tried.
    pub fn failed(&self) -> (r: Vec<String>)
        ensures
            r@.map_values(|s: String| s@) == self@.failed,
    {
        let r = self.failed.clone();
        proof {
            assert(r@.map_values(|s: String| s@) =~= self.failed@.map_values(|s: String| s@));
        }
        r
    }
}

/// "Hide all" goes on past a failure: whatever closing its window and saving
/// it gave, each Pin is settled in one pass and the run moves to the next,
/// noting the Pin exactly when one of the two steps failed.
pub proof fn law_hide_all_goes_on(v: HideAllView, closed: bool, saved: bool)
    requires
        hide_all_wf(v),
        !v.saving,
        v.done < v.ids.len(),
    ensures
        ({
            let w = after_pin(v, closed, saved);
            &&& hide_all_wf(w)
            &&& w.ids == v.ids
            &&& w.done == v.done + 1
            &&& !w.saving
            &&& w.failed == (if closed && saved { v.failed } else { v.failed.push(v.ids[v.done as int]) })
        }),
{
}

} // verus!
