//! The in-memory registry of Pins: each Pin's document and metadata, keyed by
//! pin id, with the queries the tray and the manager window make and the
//! rebuild from the state file at start-up. Persisting a change is the
//! caller's work; every change here returns what a rollback needs.
use vstd::prelude::*;
use crate::pin::{clone_opt_source, MarkdownBlock, PinBlock, PinDocument, PinDocumentView};
use crate::storage::{pin_id_error, validate_pin_id, PinMeta, PinState, StateFile, WindowSizeBits};
use crate::clock::{now_millis, now_rfc3339, random_below};
use crate::text::{
    append_int, int_text, joined, lemma_text_lt_asymmetric, lemma_text_lt_irreflexive,
    lemma_text_lt_total, lemma_text_lt_transitive, owned, text_eq, text_less, text_lt,
    zero_padded, zero_padded_text,
};

verus! {

// ---------- entries ----------

/// A Pin held in memory: its document (for rendering) and its metadata.
#[derive(Debug)]
pub struct PinEntry {
    pub doc: PinDocument,
    pub meta: PinMeta,
}

pub struct PinEntryView {
    pub doc: PinDocumentView,
    pub meta: PinMeta,
}

impl View for PinEntry {
    type V = PinEntryView;

    open spec fn view(&self) -> PinEntryView {
        PinEntryView { doc: self.doc@, meta: self.meta }
    }
}

impl Clone for PinEntry {
    fn clone(&self) -> (r: Self)
        ensures
            r@ == self@,
    {
        PinEntry { doc: self.doc.clone(), meta: self.meta.clone() }
    }
}

/// The entry `v` after a state change to `s` at time `now`.
pub open spec fn with_state(v: PinEntryView, s: PinState, now: String) -> PinEntryView {
    PinEntryView { doc: v.doc, meta: PinMeta { state: s, updated_at: now, ..v.meta } }
}

/// The metadata a new Pin gets: its id and title, the document's creation
/// time when it has one (else `now`), `now` as the update time, the given
/// state and the document's source.
pub open spec fn new_meta(pin_id: String, doc: PinDocumentView, state: PinState, now: String) -> PinMeta {
    PinMeta {
        pin_id: pin_id,
        title: doc.title,
        created_at: match doc.created_at {
            Some(c) => c,
            None => now,
        },
        updated_at: now,
        state: state,
        source: doc.source,
        window_size: None,
    }
}

// ---------- ordering of metadata ----------

/// The sort key: the creation time, or the update time.
pub open spec fn sort_key(m: PinMeta, by_updated: bool) -> Seq<char> {
    if by_updated {
        m.updated_at@
    } else {
        m.created_at@
    }
}

/// `a` may come before `b` in a list sorted by the key, newest first when
/// `desc`, oldest first otherwise.
pub open spec fn comes_before(a: PinMeta, b: PinMeta, by_updated: bool, desc: bool) -> bool {
    if desc {
        !text_lt(sort_key(a, by_updated), sort_key(b, by_updated))
    } else {
        !text_lt(sort_key(b, by_updated), sort_key(a, by_updated))
    }
}

pub open spec fn sorted_metas(s: Seq<PinMeta>, by_updated: bool, desc: bool) -> bool {
    forall|i: int, j: int|
        0 <= i < j < s.len() ==> comes_before(#[trigger] s[i], #[trigger] s[j], by_updated, desc)
}

pub open spec fn distinct_ids(s: Seq<PinMeta>) -> bool {
    forall|i: int, j: int| 0 <= i < j < s.len() ==> (#[trigger] s[i]).pin_id@ != (#[trigger] s[j]).pin_id@
}

/// `s` lists the metadata of exactly the Pins of `m` that satisfy `keep`,
/// each once.
pub open spec fn lists(m: Map<Seq<char>, PinEntryView>, s: Seq<PinMeta>, keep: spec_fn(PinMeta) -> bool) -> bool {
    &&& forall|j: int|
        0 <= j < s.len() ==> m.contains_key((#[trigger] s[j]).pin_id@) && m[s[j].pin_id@].meta
            == s[j] && keep(s[j])
    &&& forall|k: Seq<char>|
        #[trigger] m.contains_key(k) && keep(m[k].meta) ==> exists|j: int|
            0 <= j < s.len() && (#[trigger] s[j]).pin_id@ == k
    &&& distinct_ids(s)
}

pub open spec fn any_meta(m: PinMeta) -> bool {
    true
}

pub open spec fn is_hidden(m: PinMeta) -> bool {
    m.state == PinState::Hidden
}

/// Whether `m` must go strictly before `x`.
fn goes_first(m: &PinMeta, x: &PinMeta, by_updated: bool, desc: bool) -> (r: bool)
    ensures
        r == (if desc {
            text_lt(sort_key(*x, by_updated), sort_key(*m, by_updated))
        } else {
            text_lt(sort_key(*m, by_updated), sort_key(*x, by_updated))
        }),
{
    let (km, kx) = if by_updated {
        (m.updated_at.as_str(), x.updated_at.as_str())
    } else {
        (m.created_at.as_str(), x.created_at.as_str())
    };
    if desc {
        text_less(kx, km)
    } else {
        text_less(km, kx)
    }
}

/// Inserts `m` into the sorted list `v`, after the entries with an equal key.
fn insert_sorted(v: &mut Vec<PinMeta>, m: PinMeta, by_updated: bool, desc: bool)
    requires
        sorted_metas(old(v)@, by_updated, desc),
    ensures
        sorted_metas(final(v)@, by_updated, desc),
        exists|p: int| 0 <= p <= old(v)@.len() && final(v)@ == old(v)@.insert(p, m),
{
    let mut p: usize = 0;
    while p < v.len() && !goes_first(&m, &v[p], by_updated, desc)
        invariant
            p <= v.len(),
            v@ == old(v)@,
            forall|j: int| 0 <= j < p ==> comes_before(#[trigger] v@[j], m, by_updated, desc),
        decreases v.len() - p,
    {
        p += 1;
    }
    let ghost old_v = v@;
    proof {
        if p < old_v.len() {
            assert forall|j: int| p <= j < old_v.len() implies comes_before(
                m,
                #[trigger] old_v[j],
                by_updated,
                desc,
            ) by {
                if j > p {
                    assert(comes_before(old_v[p as int], old_v[j], by_updated, desc));
                }
                let km = sort_key(m, by_updated);
                let kp = sort_key(old_v[p as int], by_updated);
                let kj = sort_key(old_v[j], by_updated);
                lemma_text_lt_irreflexive(kp);
                if desc {
                    // kj <= kp < km
                    lemma_text_lt_total(kp, kj);
                    if text_lt(km, kj) {
                        if kp == kj {
                            lemma_text_lt_asymmetric(km, kp);
                        } else {
                            lemma_text_lt_transitive(kj, kp, km);
                            lemma_text_lt_asymmetric(km, kj);
                        }
                    }
                } else {
                    lemma_text_lt_total(kp, kj);
                    if text_lt(kj, km) {
                        if kp == kj {
                            lemma_text_lt_asymmetric(km, kp);
                        } else {
                            lemma_text_lt_transitive(km, kp, kj);
                            lemma_text_lt_asymmetric(km, kj);
                        }
                    }
                }
            }
        }
    }
    v.insert(p, m);
    proof {
        let nv = v@;
        assert forall|i: int, j: int| 0 <= i < j < nv.len() implies comes_before(
            #[trigger] nv[i],
            #[trigger] nv[j],
            by_updated,
            desc,
        ) by {
            if i < p && j < p {
                assert(nv[i] == old_v[i] && nv[j] == old_v[j]);
            } else if i < p && j == p {
            } else if i < p && j > p {
                assert(nv[j] == old_v[j - 1]);
                assert(comes_before(old_v[i], old_v[j - 1], by_updated, desc));
            } else if i == p {
                assert(nv[j] == old_v[j - 1]);
            } else {
                assert(nv[i] == old_v[i - 1] && nv[j] == old_v[j - 1]);
                assert(comes_before(old_v[i - 1], old_v[j - 1], by_updated, desc));
            }
        }
    }
}

// ---------- the registry ----------

/// Every Pin known to the application, keyed by pin id, plus the ids whose
/// windows are being rebuilt (so that the old window's destruction does not
/// mark them hidden).
pub struct PinRegistry {
    entries: Vec<PinEntry>,
    recreating: Vec<String>,
}

impl PinRegistry {
    pub closed spec fn key(&self, i: int) -> Seq<char> {
        self.entries@[i].meta.pin_id@
    }

    pub closed spec fn has_key(&self, k: Seq<char>) -> bool {
        exists|i: int| 0 <= i < self.entries@.len() && self.key(i) == k
    }

    pub closed spec fn index_of(&self, k: Seq<char>) -> int {
        choose|i: int| 0 <= i < self.entries@.len() && self.key(i) == k
    }

    /// The registry is well formed: no two entries share a pin id.
    pub closed spec fn wf(&self) -> bool {
        forall|i: int, j: int|
            0 <= i < j < self.entries@.len() ==> self.key(i) != self.key(j)
    }

    /// The Pins, by pin id.
    pub closed spec fn entries_map(&self) -> Map<Seq<char>, PinEntryView> {
        Map::new(|k: Seq<char>| self.has_key(k), |k: Seq<char>| self.entries@[self.index_of(k)]@)
    }

    /// Two registries with the same entries have the same map.
    proof fn lemma_same_entries(&self, other: &PinRegistry)
        requires
            self.wf(),
            self.entries@ == other.entries@,
        ensures
            other.wf(),
            self.entries_map() == other.entries_map(),
    {
        assert forall|i: int| 0 <= i < self.entries@.len() implies self.key(i) == other.key(i) by {}
        assert(other.wf()) by {
            assert forall|i: int, j: int| 0 <= i < j < other.entries@.len() implies other.key(i) != other.key(j) by {
                assert(self.key(i) != self.key(j));
            }
        }
        assert forall|k: Seq<char>| self.has_key(k) == other.has_key(k) by {
            if self.has_key(k) {
                let i = choose|i: int| 0 <= i < self.entries@.len() && self.key(i) == k;
                assert(other.key(i) == k);
            }
            if other.has_key(k) {
                let i = choose|i: int| 0 <= i < other.entries@.len() && other.key(i) == k;
                assert(self.key(i) == k);
            }
        }
        assert(self.entries_map() =~= other.entries_map()) by {
            assert forall|k: Seq<char>| self.has_key(k) implies self.entries_map()[k] == other.entries_map()[k] by {
                let i = self.index_of(k);
                self.lemma_at(i);
                assert(other.key(i) == k);
                other.lemma_at(i);
            }
        }
    }

    /// Every Pin is filed under its own pin id.
    pub proof fn law_filed_under_own_id(&self, k: Seq<char>)
        requires
            self.wf(),
            self@.contains_key(k),
        ensures
            self@[k].meta.pin_id@ == k,
    {
        let i = self.index_of(k);
        self.lemma_at(i);
    }

    /// The ids whose windows are being rebuilt.
    pub closed spec fn recreating_ids(&self) -> Set<Seq<char>> {
        Set::new(|k: Seq<char>| exists|i: int| 0 <= i < self.recreating@.len() && self.recreating@[i]@ == k)
    }

    proof fn lemma_at(&self, i: int)
        requires
            self.wf(),
            0 <= i < self.entries@.len(),
        ensures
            self.entries_map().contains_key(self.key(i)),
            self.entries_map()[self.key(i)] == self.entries@[i]@,
            self.entries_map()[self.key(i)].meta.pin_id@ == self.key(i),
    {
        assert(self.has_key(self.key(i)));
        let j = self.index_of(self.key(i));
        assert(self.key(j) == self.key(i));
        if j != i {
            if j < i {
                assert(self.key(j) != self.key(i));
            } else {
                assert(self.key(i) != self.key(j));
            }
        }
    }

    pub fn new() -> (r: Self)
        ensures
            r.wf(),
            r@ == Map::<Seq<char>, PinEntryView>::empty(),
            r.recreating_ids() == Set::<Seq<char>>::empty(),
    {
        let r = PinRegistry { entries: Vec::new(), recreating: Vec::new() };
        assert(r.entries_map() =~= Map::<Seq<char>, PinEntryView>::empty());
        assert(r.recreating_ids() =~= Set::<Seq<char>>::empty());
        r
    }

    fn position(&self, pin_id: &str) -> (r: Option<usize>)
        requires
            self.wf(),
        ensures
            match r {
                Some(i) => i < self.entries@.len() && self.key(i as int) == pin_id@,
                None => !self.has_key(pin_id@),
            },
    {
        let mut i: usize = 0;
        while i < self.entries.len()
            invariant
                i <= self.entries@.len(),
                forall|j: int| 0 <= j < i ==> self.key(j) != pin_id@,
            decreases self.entries.len() - i,
        {
            if text_eq(self.entries[i].meta.pin_id.as_str(), pin_id) {
                return Some(i);
            }
            i += 1;
        }
        None
    }

    /// The number of Pins.
    pub fn len(&self) -> (n: usize)
        requires
            self.wf(),
        ensures
            n == self@.dom().len(),
    {
        proof {
            self.lemma_len();
        }
        self.entries.len()
    }

    proof fn lemma_len(&self)
        requires
            self.wf(),
        ensures
            self.entries_map().dom().len() == self.entries@.len(),
            self.entries_map().dom().finite(),
    {
        let keys = Seq::new(self.entries@.len(), |i: int| self.key(i));
        assert(keys.no_duplicates()) by {
            assert forall|i: int, j: int| 0 <= i < keys.len() && 0 <= j < keys.len() && i != j
                implies keys[i] != keys[j] by {
                if i < j {
                } else {
                }
            }
        }
        assert(self.entries_map().dom() =~= keys.to_set()) by {
            assert forall|k: Seq<char>| keys.to_set().contains(k) implies self.has_key(k) by {
                let i = choose|i: int| 0 <= i < keys.len() && keys[i] == k;
                assert(self.key(i) == k);
            }
            assert forall|k: Seq<char>| self.has_key(k) implies keys.to_set().contains(k) by {
                let i = choose|i: int| 0 <= i < self.entries@.len() && self.key(i) == k;
                assert(keys[i] == k);
            }
        }
        keys.unique_seq_to_set();
    }

    /// The document of the Pin `pin_id`.
    pub fn get(&self, pin_id: &str) -> (r: Option<PinDocument>)
        requires
            self.wf(),
        ensures
            match r {
                Some(d) => self@.contains_key(pin_id@) && d@ == self@[pin_id@].doc,
                None => !self@.contains_key(pin_id@),
            },
    {
        match self.position(pin_id) {
            Some(i) => {
                proof {
                    self.lemma_at(i as int);
                }
                Some(self.entries[i].doc.clone())
            },
            None => None,
        }
    }

    /// The metadata of the Pin `pin_id`.
    pub fn get_meta(&self, pin_id: &str) -> (r: Option<PinMeta>)
        requires
            self.wf(),
        ensures
            match r {
                Some(m) => self@.contains_key(pin_id@) && m == self@[pin_id@].meta,
                None => !self@.contains_key(pin_id@),
            },
    {
        match self.position(pin_id) {
            Some(i) => {
                proof {
                    self.lemma_at(i as int);
                }
                Some(self.entries[i].meta.clone())
            },
            None => None,
        }
    }

    /// Adds `e` under its own pin id, replacing any Pin with that id.
    pub fn insert_entry(&mut self, e: PinEntry)
        requires
            old(self).wf(),
        ensures
            final(self).wf(),
            final(self)@ == old(self)@.insert(e.meta.pin_id@, e@),
            final(self).recreating_ids() == old(self).recreating_ids(),
    {
        let ghost k = e.meta.pin_id@;
        let ghost ev = e@;
        match self.position(e.meta.pin_id.as_str()) {
            Some(i) => {
                let _ = self.entries.remove(i);
                self.entries.insert(i, e);
                assert(self.wf()) by {
                    assert forall|a: int, b: int| 0 <= a < b < self.entries@.len() implies self.key(
                        a,
                    ) != self.key(b) by {
                        if a != i && b != i {
                            assert(self.key(a) == old(self).key(a));
                            assert(self.key(b) == old(self).key(b));
                        } else if a == i {
                            assert(self.key(b) == old(self).key(b));
                        } else {
                            assert(self.key(a) == old(self).key(a));
                        }
                    }
                }
                assert forall|j: int| 0 <= j < self.entries@.len() && j != i implies self.key(j)
                    == old(self).key(j) && self.entries@[j] == old(self).entries@[j] by {}
            },
            None => {
                self.entries.push(e);
                assert forall|j: int| 0 <= j < old(self).entries@.len() implies self.key(j)
                    == old(self).key(j) && self.entries@[j] == old(self).entries@[j] by {}
            },
        }
        proof {
            assert(self.entries_map() =~= old(self).entries_map().insert(k, ev)) by {
                assert forall|x: Seq<char>| self.has_key(x) == (old(self).has_key(x) || x == k) by {
                    if self.has_key(x) {
                        let j = choose|j: int| 0 <= j < self.entries@.len() && self.key(j) == x;
                        if x != k {
                            assert(old(self).key(j) == x);
                        }
                    }
                    if old(self).has_key(x) && x != k {
                        let j = choose|j: int| 0 <= j < old(self).entries@.len() && old(self).key(j) == x;
                        assert(self.key(j) == x);
                    }
                    if x == k {
                        let j = if self.entries@.len() > old(self).entries@.len() {
                            old(self).entries@.len() as int
                        } else {
                            choose|j: int| 0 <= j < old(self).entries@.len() && old(self).key(j) == k
                        };
                        assert(self.key(j) == k);
                    }
                }
                assert forall|x: Seq<char>| self.has_key(x) implies self.entries_map()[x] == old(
                    self,
                ).entries_map().insert(k, ev)[x] by {
                    let j = self.index_of(x);
                    self.lemma_at(j);
                    if x != k {
                        assert(old(self).key(j) == x);
                        old(self).lemma_at(j);
                    }
                }
            }
            assert(self.recreating_ids() =~= old(self).recreating_ids());
        }
    }

    /// Removes the Pin `pin_id` (nothing happens when there is none) and
    /// hands back what was removed. An id that `validate_pin_id` refuses is
    /// refused here too, with its message, and nothing changes.
    pub fn remove(&mut self, pin_id: &str) -> (r: Result<Option<PinEntry>, String>)
        requires
            old(self).wf(),
        ensures
            final(self).wf(),
            final(self).recreating_ids() == old(self).recreating_ids(),
            match pin_id_error(pin_id@) {
                Some(m) => r matches Err(e) && e@ == m && final(self)@ == old(self)@,
                None => r matches Ok(removed) && final(self)@ == old(self)@.remove(pin_id@) && match removed {
                    Some(e) => old(self)@.contains_key(pin_id@) && e@ == old(self)@[pin_id@],
                    None => !old(self)@.contains_key(pin_id@),
                },
            },
    {
        match validate_pin_id(pin_id) {
            Err(e) => return Err(e),
            Ok(()) => {},
        }
        Ok(self.take_out(pin_id))
    }

    /// Takes the Pin filed under `pin_id` out, whatever the id looks like,
    /// and hands it back (none when there is no such Pin).
    fn take_out(&mut self, pin_id: &str) -> (r: Option<PinEntry>)
        requires
            old(self).wf(),
        ensures
            final(self).wf(),
            final(self).recreating_ids() == old(self).recreating_ids(),
            final(self)@ == old(self)@.remove(pin_id@),
            match r {
                Some(e) => old(self)@.contains_key(pin_id@) && e@ == old(self)@[pin_id@],
                None => !old(self)@.contains_key(pin_id@),
            },
    {
        match self.position(pin_id) {
            None => {
                assert(self.entries_map() =~= self.entries_map().remove(pin_id@));
                None
            },
            Some(i) => {
                proof {
                    self.lemma_at(i as int);
                }
                let e = self.entries.remove(i);
                proof {
                    assert forall|j: int| 0 <= j < self.entries@.len() implies self.key(j) == old(
                        self,
                    ).key(if j < i { j } else { j + 1 }) by {}
                    assert(self.wf()) by {
                        assert forall|a: int, b: int| 0 <= a < b < self.entries@.len() implies self.key(
                            a,
                        ) != self.key(b) by {
                            assert(self.key(a) == old(self).key(if a < i { a } else { a + 1 }));
                            assert(self.key(b) == old(self).key(if b < i { b } else { b + 1 }));
                        }
                    }
                    assert(self.entries_map() =~= old(self).entries_map().remove(pin_id@)) by {
                        assert forall|x: Seq<char>| self.has_key(x) == (old(self).has_key(x) && x
                            != pin_id@) by {
                            if self.has_key(x) {
                                let j = choose|j: int| 0 <= j < self.entries@.len() && self.key(j) == x;
                                let oj = if j < i { j } else { j + 1 };
                                assert(old(self).key(oj) == x);
                                if x == pin_id@ {
                                    assert(oj != i);
                                    if oj < i {
                                        assert(old(self).key(oj) != old(self).key(i as int));
                                    } else {
                                        assert(old(self).key(i as int) != old(self).key(oj));
                                    }
                                }
                            }
                            if old(self).has_key(x) && x != pin_id@ {
                                let j = choose|j: int| 0 <= j < old(self).entries@.len() && old(self).key(j) == x;
                                assert(j != i);
                                let nj = if j < i { j } else { j - 1 };
                                assert(self.key(nj) == x);
                            }
                        }
                        assert forall|x: Seq<char>| self.has_key(x) implies self.entries_map()[x]
                            == old(self).entries_map().remove(pin_id@)[x] by {
                            let j = self.index_of(x);
                            self.lemma_at(j);
                            let oj = if j < i { j } else { j + 1 };
                            assert(old(self).key(oj) == x);
                            old(self).lemma_at(oj);
                        }
                    }
                    assert(self.recreating_ids() =~= old(self).recreating_ids());
                }
                Some(e)
            },
        }
    }

    /// Sets the state of the Pin `pin_id` and stamps the change with `now`;
    /// gives back the previous state and update time (for a rollback).
    pub fn set_state_at(&mut self, pin_id: &str, state: PinState, now: String) -> (r: Result<(PinState, String), String>)
        requires
            old(self).wf(),
        ensures
            final(self).wf(),
            final(self).recreating_ids() == old(self).recreating_ids(),
            match r {
                Ok((s, u)) => old(self)@.contains_key(pin_id@) && s == old(self)@[pin_id@].meta.state
                    && u == old(self)@[pin_id@].meta.updated_at && final(self)@ == old(self)@.insert(
                    pin_id@,
                    with_state(old(self)@[pin_id@], state, now),
                ),
                Err(e) => !old(self)@.contains_key(pin_id@) && e@ == "pin not found: "@ + pin_id@
                    && final(self)@ == old(self)@,
            },
    {
        match self.position(pin_id) {
            None => Err(joined("pin not found: ", pin_id)),
            Some(i) => {
                proof {
                    self.lemma_at(i as int);
                }
                let mut e = self.entries.remove(i);
                let old_state = e.meta.state;
                let old_updated = e.meta.updated_at.clone();
                let ghost ev = e@;
                e.meta.state = state;
                e.meta.updated_at = now;
                let ghost nev = e@;
                assert(nev == with_state(ev, state, e.meta.updated_at));
                let ghost ne = e;
                self.entries.insert(i, e);
                proof {
                    assert(self.entries@ =~= old(self).entries@.update(i as int, ne));
                    self.insert_fix(*old(self), i);
                }
                Ok((old_state, old_updated))
            },
        }
    }

    /// After replacing entry `i` by one with the same pin id, the map changes
    /// only at that id.
    proof fn insert_fix(&self, pre: PinRegistry, i: usize)
        requires
            pre.wf(),
            i < pre.entries@.len(),
            self.entries@ == pre.entries@.update(i as int, self.entries@[i as int]),
            self.key(i as int) == pre.key(i as int),
            self.recreating == pre.recreating,
        ensures
            self.wf(),
            self.entries_map() == pre.entries_map().insert(pre.key(i as int), self.entries@[i as int]@),
            self.recreating_ids() == pre.recreating_ids(),
    {
        assert forall|j: int| 0 <= j < self.entries@.len() implies self.key(j) == pre.key(j) by {}
        assert(self.wf()) by {
            assert forall|a: int, b: int| 0 <= a < b < self.entries@.len() implies self.key(a)
                != self.key(b) by {
                assert(self.key(a) == pre.key(a));
                assert(self.key(b) == pre.key(b));
            }
        }
        let k = pre.key(i as int);
        assert(self.entries_map() =~= pre.entries_map().insert(k, self.entries@[i as int]@)) by {
            assert forall|x: Seq<char>| self.has_key(x) == pre.has_key(x) by {
                if self.has_key(x) {
                    let j = choose|j: int| 0 <= j < self.entries@.len() && self.key(j) == x;
                    assert(pre.key(j) == x);
                }
                if pre.has_key(x) {
                    let j = choose|j: int| 0 <= j < pre.entries@.len() && pre.key(j) == x;
                    assert(self.key(j) == x);
                }
            }
            pre.lemma_at(i as int);
            assert forall|x: Seq<char>| self.has_key(x) implies self.entries_map()[x]
                == pre.entries_map().insert(k, self.entries@[i as int]@)[x] by {
                let j = self.index_of(x);
                self.lemma_at(j);
                assert(pre.key(j) == x);
                pre.lemma_at(j);
            }
        }
        assert(self.recreating_ids() =~= pre.recreating_ids());
    }
}


pub open spec fn keep_of(hidden_only: bool) -> spec_fn(PinMeta) -> bool {
    if hidden_only {
        |m: PinMeta| is_hidden(m)
    } else {
        |m: PinMeta| any_meta(m)
    }
}


/// Every element of `r` is a kept element of `ms[..i]`.
pub open spec fn covers_prefix(ms: Seq<PinMeta>, i: int, r: Seq<PinMeta>, keep: spec_fn(PinMeta) -> bool) -> bool {
    forall|j: int| 0 <= j < r.len() ==> #[trigger] in_prefix(ms, i, r[j], keep)
}

/// `m` is a kept element of `ms[..i]`.
pub open spec fn in_prefix(ms: Seq<PinMeta>, i: int, m: PinMeta, keep: spec_fn(PinMeta) -> bool) -> bool {
    exists|x: int| 0 <= x < i && #[trigger] ms[x] == m && keep(m)
}

/// Every kept element of `ms[..i]` has its id in `r`.
pub open spec fn complete_prefix(ms: Seq<PinMeta>, i: int, r: Seq<PinMeta>, keep: spec_fn(PinMeta) -> bool) -> bool {
    forall|x: int| 0 <= x < i && keep(#[trigger] ms[x]) ==> exists|j: int|
        0 <= j < r.len() && (#[trigger] r[j]).pin_id@ == ms[x].pin_id@
}

proof fn lemma_collect_skip(ms: Seq<PinMeta>, i: int, r: Seq<PinMeta>, keep: spec_fn(PinMeta) -> bool)
    requires
        0 <= i < ms.len(),
        !keep(ms[i]),
        covers_prefix(ms, i, r, keep),
        complete_prefix(ms, i, r, keep),
    ensures
        covers_prefix(ms, i + 1, r, keep),
        complete_prefix(ms, i + 1, r, keep),
{
    assert forall|j: int| 0 <= j < r.len() implies #[trigger] in_prefix(ms, i + 1, r[j], keep) by {
        assert(in_prefix(ms, i, r[j], keep));
        let x = choose|x: int| 0 <= x < i && #[trigger] ms[x] == r[j] && keep(r[j]);
    }
}

proof fn lemma_collect_step(ms: Seq<PinMeta>, i: int, r: Seq<PinMeta>, p: int, keep: spec_fn(PinMeta) -> bool)
    requires
        0 <= i < ms.len(),
        0 <= p <= r.len(),
        keep(ms[i]),
        distinct_ids(ms),
        distinct_ids(r),
        covers_prefix(ms, i, r, keep),
        complete_prefix(ms, i, r, keep),
    ensures
        covers_prefix(ms, i + 1, r.insert(p, ms[i]), keep),
        complete_prefix(ms, i + 1, r.insert(p, ms[i]), keep),
        distinct_ids(r.insert(p, ms[i])),
{
    let m = ms[i];
    let nr = r.insert(p, m);
    assert forall|j: int| 0 <= j < nr.len() implies #[trigger] in_prefix(ms, i + 1, nr[j], keep) by {
        if j < p {
            assert(nr[j] == r[j]);
            assert(in_prefix(ms, i, r[j], keep));
            let x = choose|x: int| 0 <= x < i && #[trigger] ms[x] == r[j] && keep(r[j]);
        } else if j == p {
            assert(ms[i] == nr[j]);
        } else {
            assert(nr[j] == r[j - 1]);
            assert(in_prefix(ms, i, r[j - 1], keep));
            let x = choose|x: int| 0 <= x < i && #[trigger] ms[x] == r[j - 1] && keep(r[j - 1]);
        }
    }
    assert forall|x: int| 0 <= x < i + 1 && keep(#[trigger] ms[x]) implies exists|j: int|
        0 <= j < nr.len() && (#[trigger] nr[j]).pin_id@ == ms[x].pin_id@ by {
        if x < i {
            let j = choose|j: int| 0 <= j < r.len() && (#[trigger] r[j]).pin_id@ == ms[x].pin_id@;
            if j < p {
                assert(nr[j] == r[j]);
            } else {
                assert(nr[j + 1] == r[j]);
            }
        } else {
            assert(nr[p] == m);
        }
    }
    assert forall|a: int, b: int| 0 <= a < b < nr.len() implies (#[trigger] nr[a]).pin_id@ != (#[trigger] nr[b]).pin_id@ by {
        if a != p && b != p {
            let oa = if a < p { a } else { a - 1 };
            let ob = if b < p { b } else { b - 1 };
            assert(nr[a] == r[oa]);
            assert(nr[b] == r[ob]);
        } else {
            let o = if a == p { b } else { a };
            let oo = if o < p { o } else { o - 1 };
            assert(nr[o] == r[oo]);
            assert(in_prefix(ms, i, r[oo], keep));
            let x = choose|x: int| 0 <= x < i && #[trigger] ms[x] == r[oo] && keep(r[oo]);
            assert(ms[x].pin_id@ != ms[i].pin_id@);
        }
    }
}

/// The message of the placeholder document that stands for a Pin whose
/// document file is missing or unreadable.
pub open spec fn placeholder_text(pin_id: Seq<char>) -> Seq<char> {
    "[数据缺失] Pin 文件 "@ + pin_id + " 损坏或丢失，请删除此 Pin"@
}

/// `d` is the placeholder document for the Pin described by `meta`: version
/// 1, the Pin's title, source and creation time, and one Markdown block that
/// says the file is missing.
pub open spec fn is_placeholder(d: PinDocumentView, meta: PinMeta) -> bool {
    &&& d.version == 1
    &&& d.title == meta.title
    &&& d.blocks.len() == 1
    &&& d.blocks[0] matches PinBlock::Markdown(mb) && mb.content@ == placeholder_text(meta.pin_id@)
    &&& d.window is None
    &&& d.source == meta.source
    &&& d.created_at == Some(meta.created_at)
}

pub open spec fn doc_view(d: Option<PinDocument>) -> Option<PinDocumentView> {
    match d {
        Some(x) => Some(x@),
        None => None,
    }
}

/// `e` is what the state-file record `meta` with its document `doc` (or none)
/// becomes at start-up: a visible Pin is now hidden (its window is gone), and
/// a Pin without a readable document is failed, with a placeholder document;
/// each such change is stamped with `now`.
pub open spec fn restored(e: PinEntryView, meta: PinMeta, doc: Option<PinDocumentView>, now: String) -> bool {
    match doc {
        Some(d) => e.doc == d && e.meta == (if meta.state == PinState::Visible {
            PinMeta { state: PinState::Hidden, updated_at: now, ..meta }
        } else {
            meta
        }),
        None => e.meta == PinMeta { state: PinState::Failed, updated_at: now, ..meta }
            && is_placeholder(e.doc, meta),
    }
}

/// Restoring the record changes it (so the state file must be rewritten).
pub open spec fn restore_changes(meta: PinMeta, doc: Option<PinDocumentView>) -> bool {
    meta.state == PinState::Visible || doc is None
}

/// `pin_<ts>_<r, six digits>`.
pub open spec fn pin_id_text(ts: int, r: nat) -> Seq<char> {
    "pin_"@ + int_text(ts) + "_"@ + zero_padded(r, 6)
}

/// `format!("pin_{}_{:06}", ts, r)`.
pub fn format_pin_id(ts: i64, r: u32) -> (s: String)
    ensures
        s@ == pin_id_text(ts as int, r as nat),
{
    let mut s = owned("pin_");
    append_int(&mut s, ts);
    s.append("_");
    let z = zero_padded_text(r as u64, 6);
    s.append(z.as_str());
    s
}

/// A fresh pin id `pin_<milliseconds since the epoch>_<six random digits>`.
pub fn generate_pin_id() -> (s: String)
    ensures
        exists|ts: i64, r: u32| r < 1_000_000 && s@ == pin_id_text(ts as int, r as nat),
{
    let ts = now_millis();
    let r = random_below(1_000_000);
    format_pin_id(ts, r)
}

fn placeholder_doc(meta: &PinMeta) -> (d: PinDocument)
    ensures
        is_placeholder(d@, *meta),
{
    let mut content = owned("[数据缺失] Pin 文件 ");
    content.append(meta.pin_id.as_str());
    content.append(" 损坏或丢失，请删除此 Pin");
    let mut blocks: Vec<PinBlock> = Vec::new();
    blocks.push(PinBlock::Markdown(MarkdownBlock { content }));
    PinDocument {
        version: 1,
        title: meta.title.clone(),
        blocks,
        window: None,
        source: clone_opt_source(&meta.source),
        created_at: Some(meta.created_at.clone()),
    }
}

/// The metadata for a new Pin, stamped with `now`.
pub fn build_meta_at(pin_id: &str, doc: &PinDocument, state: PinState, now: String) -> (m: PinMeta)
    ensures
        m == new_meta(m.pin_id, doc@, state, now),
        m.pin_id@ == pin_id@,
{
    let created_at = match &doc.created_at {
        Some(c) => c.clone(),
        None => now.clone(),
    };
    PinMeta {
        pin_id: owned(pin_id),
        title: doc.title.clone(),
        created_at,
        updated_at: now,
        state,
        source: clone_opt_source(&doc.source),
        window_size: None,
    }
}

/// The metadata for a new Pin, stamped with the current time.
pub fn build_meta(pin_id: &str, doc: &PinDocument, state: PinState) -> (m: PinMeta)
    ensures
        m == new_meta(m.pin_id, doc@, state, m.updated_at),
        m.pin_id@ == pin_id@,
{
    build_meta_at(pin_id, doc, state, now_rfc3339())
}

impl PinRegistry {
    pub closed spec fn metas(&self) -> Seq<PinMeta> {
        Seq::new(self.entries@.len(), |x: int| self.entries@[x].meta)
    }

    proof fn lemma_lists(&self, r: Seq<PinMeta>, keep: spec_fn(PinMeta) -> bool)
        requires
            self.wf(),
            covers_prefix(self.metas(), self.metas().len() as int, r, keep),
            complete_prefix(self.metas(), self.metas().len() as int, r, keep),
            distinct_ids(r),
        ensures
            lists(self@, r, keep),
    {
        let ms = self.metas();
        assert forall|j: int| 0 <= j < r.len() implies self@.contains_key((#[trigger] r[j]).pin_id@)
            && self@[r[j].pin_id@].meta == r[j] && keep(r[j]) by {
            assert(in_prefix(ms, ms.len() as int, r[j], keep));
            let x = choose|x: int| 0 <= x < ms.len() && #[trigger] ms[x] == r[j] && keep(r[j]);
            self.lemma_at(x);
        }
        assert forall|k: Seq<char>| #[trigger] self@.contains_key(k) && keep(self@[k].meta)
            implies exists|j: int| 0 <= j < r.len() && (#[trigger] r[j]).pin_id@ == k by {
            let x = self.index_of(k);
            self.lemma_at(x);
            assert(keep(ms[x]));
        }
    }

    /// The metadata of the Pins kept by `hidden_only`, sorted by creation or
    /// update time, newest or oldest first.
    fn collect_sorted(&self, hidden_only: bool, by_updated: bool, desc: bool) -> (r: Vec<PinMeta>)
        requires
            self.wf(),
        ensures
            lists(self@, r@, keep_of(hidden_only)),
            sorted_metas(r@, by_updated, desc),
    {
        let ghost ms = self.metas();
        let ghost keep = keep_of(hidden_only);
        proof {
            assert(distinct_ids(ms)) by {
                assert forall|a: int, b: int| 0 <= a < b < ms.len() implies (#[trigger] ms[a]).pin_id@
                    != (#[trigger] ms[b]).pin_id@ by {
                    assert(self.key(a) != self.key(b));
                }
            }
        }
        let mut r: Vec<PinMeta> = Vec::new();
        let mut i: usize = 0;
        while i < self.entries.len()
            invariant
                i <= self.entries@.len(),
                ms == self.metas(),
                ms.len() == self.entries@.len(),
                keep == keep_of(hidden_only),
                distinct_ids(ms),
                sorted_metas(r@, by_updated, desc),
                distinct_ids(r@),
                covers_prefix(ms, i as int, r@, keep),
                complete_prefix(ms, i as int, r@, keep),
            decreases self.entries.len() - i,
        {
            let is_kept = if hidden_only {
                self.entries[i].meta.state == PinState::Hidden
            } else {
                true
            };
            assert(is_kept == keep(ms[i as int]));
            if is_kept {
                let m = self.entries[i].meta.clone();
                let ghost old_r = r@;
                insert_sorted(&mut r, m, by_updated, desc);
                proof {
                    let p = choose|p: int| 0 <= p <= old_r.len() && r@ == old_r.insert(p, m);
                    lemma_collect_step(ms, i as int, old_r, p, keep);
                }
            } else {
                proof {
                    lemma_collect_skip(ms, i as int, r@, keep);
                }
            }
            i += 1;
        }
        proof {
            self.lemma_lists(r@, keep);
        }
        r
    }

    /// Every Pin's metadata, newest (by creation time) first.
    pub fn list(&self) -> (r: Vec<PinMeta>)
        requires
            self.wf(),
        ensures
            lists(self@, r@, keep_of(false)),
            sorted_metas(r@, false, true),
            forall|i: int, j: int| 0 <= i < j < r@.len() ==> !text_lt(
                (#[trigger] r@[i]).created_at@,
                (#[trigger] r@[j]).created_at@,
            ),
    {
        let r = self.collect_sorted(false, false, true);
        proof {
            law_list_newest_created_first(r@);
        }
        r
    }

    /// The `n` most recently changed hidden Pins, most recent first (the
    /// tray's quick-restore list).
    pub fn list_recent_hidden(&self, n: usize) -> (r: Vec<PinMeta>)
        requires
            self.wf(),
        ensures
            r@.len() <= n,
            distinct_ids(r@),
            sorted_metas(r@, true, true),
            forall|i: int, j: int| 0 <= i < j < r@.len() ==> !text_lt(
                (#[trigger] r@[i]).updated_at@,
                (#[trigger] r@[j]).updated_at@,
            ),
            forall|j: int| 0 <= j < r@.len() ==> self@.contains_key((#[trigger] r@[j]).pin_id@)
                && self@[r@[j].pin_id@].meta == r@[j] && r@[j].state == PinState::Hidden,
            forall|k: Seq<char>| #[trigger] self@.contains_key(k) && self@[k].meta.state == PinState::Hidden
                ==> (exists|j: int| 0 <= j < r@.len() && (#[trigger] r@[j]).pin_id@ == k) || (r@.len() == n
                && forall|j: int| 0 <= j < r@.len() ==> comes_before(#[trigger] r@[j], self@[k].meta, true, true)),
    {
        let mut v = self.collect_sorted(true, true, true);
        let ghost all = v@;
        if v.len() > n {
            v.truncate(n);
        }
        proof {
            assert(v@ =~= all.take(v@.len() as int));
            law_recent_hidden_latest_change_first(v@);
            assert forall|k: Seq<char>| #[trigger] self@.contains_key(k) && self@[k].meta.state == PinState::Hidden
                implies (exists|j: int| 0 <= j < v@.len() && (#[trigger] v@[j]).pin_id@ == k) || (v@.len() == n
                && forall|j: int| 0 <= j < v@.len() ==> comes_before(#[trigger] v@[j], self@[k].meta, true, true)) by {
                assert(keep_of(true)(self@[k].meta));
                let q = choose|q: int| 0 <= q < all.len() && (#[trigger] all[q]).pin_id@ == k;
                if q >= v@.len() {
                    assert(all[q] == self@[k].meta);
                    assert forall|j: int| 0 <= j < v@.len() implies comes_before(#[trigger] v@[j], self@[k].meta, true, true) by {
                        assert(v@[j] == all[j]);
                        assert(comes_before(all[j], all[q], true, true));
                    }
                } else {
                    assert(v@[q] == all[q]);
                }
            }
        }
        v
    }

    /// The state file for the current Pins: version 1, every Pin's metadata,
    /// oldest (by creation time) first.
    pub fn state_snapshot(&self) -> (r: StateFile)
        requires
            self.wf(),
        ensures
            r.version == 1,
            lists(self@, r.pins@, keep_of(false)),
            sorted_metas(r.pins@, false, false),
            forall|i: int, j: int| 0 <= i < j < r.pins@.len() ==> !text_lt(
                (#[trigger] r.pins@[j]).created_at@,
                (#[trigger] r.pins@[i]).created_at@,
            ),
    {
        let pins = self.collect_sorted(false, false, false);
        proof {
            law_state_file_oldest_created_first(pins@);
        }
        StateFile { version: 1, pins }
    }

    /// Adds a new visible Pin `pin_id` with document `doc`, stamped with `now`,
    /// and returns its metadata.
    pub fn insert_at(&mut self, pin_id: String, doc: PinDocument, now: String) -> (m: PinMeta)
        requires
            old(self).wf(),
        ensures
            final(self).wf(),
            m == new_meta(pin_id, doc@, PinState::Visible, now),
            final(self)@ == old(self)@.insert(pin_id@, PinEntryView { doc: doc@, meta: m }),
            final(self).recreating_ids() == old(self).recreating_ids(),
    {
        let m = build_meta_at(pin_id.as_str(), &doc, PinState::Visible, now);
        let m2 = m.clone();
        assert(m.pin_id@ == pin_id@);
        proof {
            // both strings came from the same characters
            assert(m.pin_id@ == pin_id@);
        }
        let meta = PinMeta { pin_id, ..m };
        assert(meta == new_meta(meta.pin_id, doc@, PinState::Visible, meta.updated_at));
        let r = meta.clone();
        self.insert_entry(PinEntry { doc, meta });
        r
    }

    /// Adds a new visible Pin, stamped with the current time.
    pub fn insert(&mut self, pin_id: String, doc: PinDocument) -> (m: PinMeta)
        requires
            old(self).wf(),
        ensures
            final(self).wf(),
            m == new_meta(pin_id, doc@, PinState::Visible, m.updated_at),
            final(self)@ == old(self)@.insert(pin_id@, PinEntryView { doc: doc@, meta: m }),
            final(self).recreating_ids() == old(self).recreating_ids(),
    {
        self.insert_at(pin_id, doc, now_rfc3339())
    }

    /// Sets the state of the Pin `pin_id`, stamped with the current time.
    pub fn set_state(&mut self, pin_id: &str, state: PinState) -> (r: Result<(PinState, String), String>)
        requires
            old(self).wf(),
        ensures
            final(self).wf(),
            final(self).recreating_ids() == old(self).recreating_ids(),
            match r {
                Ok((s, u)) => old(self)@.contains_key(pin_id@) && s == old(self)@[pin_id@].meta.state
                    && u == old(self)@[pin_id@].meta.updated_at && exists|now: String| final(self)@ == old(self)@.insert(
                    pin_id@,
                    with_state(old(self)@[pin_id@], state, now),
                ),
                Err(e) => !old(self)@.contains_key(pin_id@) && e@ == "pin not found: "@ + pin_id@
                    && final(self)@ == old(self)@,
            },
    {
        let now = now_rfc3339();
        self.set_state_at(pin_id, state, now)
    }

    /// Whether the Pin `pin_id` exists and is visible.
    pub fn is_still_visible(&self, pin_id: &str) -> (r: bool)
        requires
            self.wf(),
        ensures
            r == (self@.contains_key(pin_id@) && self@[pin_id@].meta.state == PinState::Visible),
    {
        match self.get_meta(pin_id) {
            Some(m) => m.state == PinState::Visible,
            None => false,
        }
    }

    /// Settles the creation of `pin_id` once the state file was written
    /// (`written`): kept when the write succeeded; taken out again, and the
    /// write's error reported, when it failed.
    pub fn commit_insert(&mut self, pin_id: &str, written: Result<(), String>) -> (r: Result<(), String>)
        requires
            old(self).wf(),
        ensures
            final(self).wf(),
            final(self).recreating_ids() == old(self).recreating_ids(),
            match written {
                Ok(()) => r is Ok && final(self)@ == old(self)@,
                Err(w) => r matches Err(e) && e@ == save_failed_text(w@) && final(self)@ == undo_insert(
                    old(self)@,
                    pin_id@,
                ),
            },
    {
        match written {
            Ok(()) => Ok(()),
            Err(w) => {
                let _ = self.take_out(pin_id);
                Err(joined("failed to save state.json: ", w.as_str()))
            },
        }
    }

    /// Settles a change of state of `pin_id` once the state file was written:
    /// kept when the write succeeded; when it failed, the previous state and
    /// update time (`prev_state`, `prev_updated`) are put back and the write's
    /// error is reported.
    pub fn commit_set_state(
        &mut self,
        pin_id: &str,
        prev_state: PinState,
        prev_updated: String,
        written: Result<(), String>,
    ) -> (r: Result<(), String>)
        requires
            old(self).wf(),
        ensures
            final(self).wf(),
            final(self).recreating_ids() == old(self).recreating_ids(),
            match written {
                Ok(()) => r is Ok && final(self)@ == old(self)@,
                Err(w) => r matches Err(e) && e@ == save_failed_text(w@) && final(self)@ == undo_set_state(
                    old(self)@,
                    pin_id@,
                    prev_state,
                    prev_updated,
                ),
            },
    {
        match written {
            Ok(()) => Ok(()),
            Err(w) => {
                let _ = self.set_state_at(pin_id, prev_state, prev_updated);
                Err(joined("failed to save state.json: ", w.as_str()))
            },
        }
    }

    /// Settles the removal of `removed` once the state file was written:
    /// final when the write succeeded; when it failed, the Pin is put back
    /// and the write's error is reported.
    pub fn commit_remove(&mut self, removed: PinEntry, written: Result<(), String>) -> (r: Result<(), String>)
        requires
            old(self).wf(),
        ensures
            final(self).wf(),
            final(self).recreating_ids() == old(self).recreating_ids(),
            match written {
                Ok(()) => r is Ok && final(self)@ == old(self)@,
                Err(w) => r matches Err(e) && e@ == save_failed_text(w@) && final(self)@ == undo_remove(
                    old(self)@,
                    removed@,
                ),
            },
    {
        match written {
            Ok(()) => Ok(()),
            Err(w) => {
                self.insert_entry(removed);
                Err(joined("failed to save state.json: ", w.as_str()))
            },
        }
    }
}

/// The error reported when the state file could not be written (`w`).
pub open spec fn save_failed_text(w: Seq<char>) -> Seq<char> {
    "failed to save state.json: "@ + w
}

/// The registry after a new Pin `k` is taken out again.
pub open spec fn undo_insert(m: Map<Seq<char>, PinEntryView>, k: Seq<char>) -> Map<Seq<char>, PinEntryView> {
    m.remove(k)
}

/// The registry after Pin `k` gets back the state `s` and update time `u` it
/// had (nothing changes when there is no such Pin).
pub open spec fn undo_set_state(m: Map<Seq<char>, PinEntryView>, k: Seq<char>, s: PinState, u: String) -> Map<Seq<char>, PinEntryView> {
    if m.contains_key(k) {
        m.insert(k, with_state(m[k], s, u))
    } else {
        m
    }
}

/// The registry after a removed Pin `e` is put back under its id.
pub open spec fn undo_remove(m: Map<Seq<char>, PinEntryView>, e: PinEntryView) -> Map<Seq<char>, PinEntryView> {
    m.insert(e.meta.pin_id@, e)
}


/// The loaded records with their documents as views.
pub open spec fn loaded_view(items: Seq<(PinMeta, Option<PinDocument>)>) -> Seq<(PinMeta, Option<PinDocumentView>)> {
    Seq::new(items.len(), |i: int| (items[i].0, doc_view(items[i].1)))
}

pub open spec fn valid_record(meta: PinMeta) -> bool {
    pin_id_error(meta.pin_id@) is None
}

/// `m` is what loading `items` at time `now` gives: records whose pin id
/// `validate_pin_id` refuses are skipped, every other record is restored
/// (see `restored`), and of two records with one id the later one wins.
pub open spec fn loads(m: Map<Seq<char>, PinEntryView>, items: Seq<(PinMeta, Option<PinDocumentView>)>, now: String) -> bool {
    &&& forall|k: Seq<char>| #[trigger] m.contains_key(k) ==> exists|i: int|
        0 <= i < items.len() && valid_record(items[i].0) && (#[trigger] items[i].0).pin_id@ == k
            && restored(m[k], items[i].0, items[i].1, now) && forall|j: int|
            i < j < items.len() ==> (#[trigger] items[j].0).pin_id@ != k
    &&& forall|i: int| 0 <= i < items.len() && valid_record(#[trigger] items[i].0) ==> m.contains_key(items[i].0.pin_id@)
}

/// Some record of `items` that is not skipped changes when it is restored.
pub open spec fn load_changes(items: Seq<(PinMeta, Option<PinDocumentView>)>) -> bool {
    exists|i: int| 0 <= i < items.len() && valid_record(#[trigger] items[i].0) && restore_changes(items[i].0, items[i].1)
}

proof fn lemma_load_skip(m: Map<Seq<char>, PinEntryView>, items: Seq<(PinMeta, Option<PinDocumentView>)>, i: int, now: String)
    requires
        0 <= i < items.len(),
        !valid_record(items[i].0),
        loads(m, items.take(i), now),
    ensures
        loads(m, items.take(i + 1), now),
{
    let a = items.take(i);
    let b = items.take(i + 1);
    assert forall|k: Seq<char>| #[trigger] m.contains_key(k) implies exists|x: int|
        0 <= x < b.len() && valid_record(b[x].0) && (#[trigger] b[x].0).pin_id@ == k
            && restored(m[k], b[x].0, b[x].1, now) && forall|j: int|
            x < j < b.len() ==> (#[trigger] b[j].0).pin_id@ != k by {
        let x = choose|x: int| 0 <= x < a.len() && valid_record(a[x].0) && (#[trigger] a[x].0).pin_id@ == k
            && restored(m[k], a[x].0, a[x].1, now) && forall|j: int|
            x < j < a.len() ==> (#[trigger] a[j].0).pin_id@ != k;
        assert(b[x] == a[x]);
        assert forall|j: int| x < j < b.len() implies (#[trigger] b[j].0).pin_id@ != k by {
            if j < i {
                assert(b[j] == a[j]);
            } else {
                assert(b[j] == items[i]);
                assert(pin_id_error(k) is None);
            }
        }
    }
    assert forall|x: int| 0 <= x < b.len() && valid_record(#[trigger] b[x].0) implies m.contains_key(b[x].0.pin_id@) by {
        assert(x < i);
        assert(b[x] == a[x]);
    }
}

proof fn lemma_load_step(m: Map<Seq<char>, PinEntryView>, items: Seq<(PinMeta, Option<PinDocumentView>)>, i: int, e: PinEntryView, now: String)
    requires
        0 <= i < items.len(),
        valid_record(items[i].0),
        restored(e, items[i].0, items[i].1, now),
        loads(m, items.take(i), now),
    ensures
        loads(m.insert(items[i].0.pin_id@, e), items.take(i + 1), now),
{
    let a = items.take(i);
    let b = items.take(i + 1);
    let ki = items[i].0.pin_id@;
    let m2 = m.insert(ki, e);
    assert forall|k: Seq<char>| #[trigger] m2.contains_key(k) implies exists|x: int|
        0 <= x < b.len() && valid_record(b[x].0) && (#[trigger] b[x].0).pin_id@ == k
            && restored(m2[k], b[x].0, b[x].1, now) && forall|j: int|
            x < j < b.len() ==> (#[trigger] b[j].0).pin_id@ != k by {
        if k == ki {
            assert(b[i] == items[i]);
        } else {
            let x = choose|x: int| 0 <= x < a.len() && valid_record(a[x].0) && (#[trigger] a[x].0).pin_id@ == k
                && restored(m[k], a[x].0, a[x].1, now) && forall|j: int|
                x < j < a.len() ==> (#[trigger] a[j].0).pin_id@ != k;
            assert(b[x] == a[x]);
            assert forall|j: int| x < j < b.len() implies (#[trigger] b[j].0).pin_id@ != k by {
                if j < i {
                    assert(b[j] == a[j]);
                } else {
                    assert(b[j] == items[i]);
                }
            }
        }
    }
    assert forall|x: int| 0 <= x < b.len() && valid_record(#[trigger] b[x].0) implies m2.contains_key(b[x].0.pin_id@) by {
        if x < i {
            assert(b[x] == a[x]);
        } else {
            assert(b[x] == items[i]);
        }
    }
}

/// The entry that the record `meta` with document `doc` becomes at start-up.
pub fn restore_entry(meta: PinMeta, doc: Option<PinDocument>, now: &String) -> (e: PinEntry)
    ensures
        restored(e@, meta, doc_view(doc), *now),
{
    match doc {
        Some(d) => {
            let m = if meta.state == PinState::Visible {
                PinMeta { state: PinState::Hidden, updated_at: now.clone(), ..meta }
            } else {
                meta
            };
            PinEntry { doc: d, meta: m }
        },
        None => {
            let placeholder = placeholder_doc(&meta);
            PinEntry { doc: placeholder, meta: PinMeta { state: PinState::Failed, updated_at: now.clone(), ..meta } }
        },
    }
}

impl PinRegistry {
    /// Rebuilds the registry from the state file's records, each with its
    /// document if it could be read (see `loads`); tells whether the state
    /// file needs rewriting.
    pub fn load_from_disk(&mut self, loaded: Vec<(PinMeta, Option<PinDocument>)>, now: String) -> (changed: bool)
        requires
            old(self).wf(),
        ensures
            final(self).wf(),
            loads(final(self)@, loaded_view(loaded@), now),
            changed == load_changes(loaded_view(loaded@)),
            final(self).recreating_ids() == old(self).recreating_ids(),
    {
        let ghost items = loaded_view(loaded@);
        self.entries.clear();
        let mut changed = false;
        let mut i: usize = 0;
        proof {
            assert(self@ =~= Map::<Seq<char>, PinEntryView>::empty());
            assert(self.recreating_ids() =~= old(self).recreating_ids());
        }
        while i < loaded.len()
            invariant
                self.wf(),
                i <= loaded@.len(),
                items == loaded_view(loaded@),
                loads(self@, items.take(i as int), now),
                changed == load_changes(items.take(i as int)),
                self.recreating_ids() == old(self).recreating_ids(),
            decreases loaded.len() - i,
        {
            let meta = loaded[i].0.clone();
            let doc = match &loaded[i].1 {
                Some(d) => Some(d.clone()),
                None => None,
            };
            assert(items[i as int] == (meta, doc_view(doc)));
            let ghost pre = items.take(i as int);
            let ghost post = items.take(i + 1);
            proof {
                assert forall|x: int| 0 <= x < i implies post[x] == pre[x] by {}
                assert(post[i as int] == items[i as int]);
            }
            if validate_pin_id(meta.pin_id.as_str()).is_err() {
                proof {
                    lemma_load_skip(self@, items, i as int, now);
                    assert(changed == load_changes(post)) by {
                        if load_changes(post) {
                            let x = choose|x: int| 0 <= x < post.len() && valid_record(#[trigger] post[x].0) && restore_changes(post[x].0, post[x].1);
                            assert(x < i);
                            assert(pre[x] == post[x]);
                        }
                        if load_changes(pre) {
                            let x = choose|x: int| 0 <= x < pre.len() && valid_record(#[trigger] pre[x].0) && restore_changes(pre[x].0, pre[x].1);
                            assert(post[x] == pre[x]);
                        }
                    }
                }
            } else {
                let ch = meta.state == PinState::Visible || doc.is_none();
                let e = restore_entry(meta, doc, &now);
                let ghost m0 = self@;
                let ghost ev = e@;
                self.insert_entry(e);
                proof {
                    lemma_load_step(m0, items, i as int, ev, now);
                    assert(ch == restore_changes(items[i as int].0, items[i as int].1));
                    assert((changed || ch) == load_changes(post)) by {
                        if load_changes(post) {
                            let x = choose|x: int| 0 <= x < post.len() && valid_record(#[trigger] post[x].0) && restore_changes(post[x].0, post[x].1);
                            if x < i {
                                assert(pre[x] == post[x]);
                            }
                        }
                        if load_changes(pre) {
                            let x = choose|x: int| 0 <= x < pre.len() && valid_record(#[trigger] pre[x].0) && restore_changes(pre[x].0, pre[x].1);
                            assert(post[x] == pre[x]);
                        }
                        if ch {
                            assert(valid_record(post[i as int].0));
                        }
                    }
                }
                changed = changed || ch;
            }
            i += 1;
        }
        proof {
            assert(items.take(loaded@.len() as int) =~= items);
        }
        changed
    }

    /// Notes that the window of `pin_id` is being rebuilt.
    pub fn mark_recreating(&mut self, pin_id: &str)
        requires
            old(self).wf(),
        ensures
            final(self).wf(),
            final(self)@ == old(self)@,
            final(self).recreating_ids() == old(self).recreating_ids().insert(pin_id@),
    {
        self.recreating.push(owned(pin_id));
        proof {
            old(self).lemma_same_entries(self);
            assert(self.recreating_ids() =~= old(self).recreating_ids().insert(pin_id@)) by {
                assert(self.recreating@[self.recreating@.len() - 1]@ == pin_id@);
                assert forall|k: Seq<char>| old(self).recreating_ids().contains(k) implies self.recreating_ids().contains(k) by {
                    let i = choose|i: int| 0 <= i < old(self).recreating@.len() && old(self).recreating@[i]@ == k;
                    assert(self.recreating@[i] == old(self).recreating@[i]);
                }
                assert forall|k: Seq<char>| self.recreating_ids().contains(k) && k != pin_id@ implies old(self).recreating_ids().contains(k) by {
                    let i = choose|i: int| 0 <= i < self.recreating@.len() && self.recreating@[i]@ == k;
                    assert(self.recreating@[i] == old(self).recreating@[i]);
                }
            }
        }
    }

    /// Notes that the window of `pin_id` is no longer being rebuilt.
    pub fn unmark_recreating(&mut self, pin_id: &str)
        requires
            old(self).wf(),
        ensures
            final(self).wf(),
            final(self)@ == old(self)@,
            final(self).recreating_ids() == old(self).recreating_ids().remove(pin_id@),
    {
        let mut kept: Vec<String> = Vec::new();
        let mut i: usize = 0;
        while i < self.recreating.len()
            invariant
                i <= self.recreating@.len(),
                self.recreating == old(self).recreating,
                forall|j: int| 0 <= j < kept@.len() ==> (#[trigger] kept@[j])@ != pin_id@ && exists|x: int| 0 <= x < i && self.recreating@[x]@ == kept@[j]@,
                forall|x: int| 0 <= x < i && (#[trigger] self.recreating@[x])@ != pin_id@ ==> exists|j: int| 0 <= j < kept@.len() && kept@[j]@ == self.recreating@[x]@,
            decreases self.recreating.len() - i,
        {
            if !text_eq(self.recreating[i].as_str(), pin_id) {
                let ghost old_kept = kept@;
                kept.push(self.recreating[i].clone());
                proof {
                    assert forall|j: int| 0 <= j < kept@.len() implies (#[trigger] kept@[j])@ != pin_id@ && exists|x: int| 0 <= x < i + 1 && self.recreating@[x]@ == kept@[j]@ by {
                        if j < old_kept.len() {
                            assert(kept@[j] == old_kept[j]);
                        } else {
                            assert(self.recreating@[i as int]@ == kept@[j]@);
                        }
                    }
                    assert forall|x: int| 0 <= x < i + 1 && (#[trigger] self.recreating@[x])@ != pin_id@ implies exists|j: int| 0 <= j < kept@.len() && kept@[j]@ == self.recreating@[x]@ by {
                        if x < i {
                            let j = choose|j: int| 0 <= j < old_kept.len() && old_kept[j]@ == self.recreating@[x]@;
                            assert(kept@[j] == old_kept[j]);
                        } else {
                            assert(kept@[old_kept.len() as int] == self.recreating@[i as int]);
                        }
                    }
                }
            }
            i += 1;
        }
        self.recreating = kept;
        proof {
            old(self).lemma_same_entries(self);
            assert(self.recreating_ids() =~= old(self).recreating_ids().remove(pin_id@)) by {
                assert forall|k: Seq<char>| self.recreating_ids().contains(k) implies old(self).recreating_ids().remove(pin_id@).contains(k) by {
                    let j = choose|j: int| 0 <= j < self.recreating@.len() && self.recreating@[j]@ == k;
                    assert((#[trigger] kept@[j])@ != pin_id@);
                }
                assert forall|k: Seq<char>| old(self).recreating_ids().remove(pin_id@).contains(k) implies self.recreating_ids().contains(k) by {
                    let x = choose|x: int| 0 <= x < old(self).recreating@.len() && old(self).recreating@[x]@ == k;
                    assert((#[trigger] old(self).recreating@[x])@ != pin_id@);
                }
            }
        }
    }

    /// Whether the window of `pin_id` is being rebuilt.
    pub fn is_recreating(&self, pin_id: &str) -> (r: bool)
        ensures
            r == self.recreating_ids().contains(pin_id@),
    {
        let mut i: usize = 0;
        while i < self.recreating.len()
            invariant
                i <= self.recreating@.len(),
                forall|j: int| 0 <= j < i ==> self.recreating@[j]@ != pin_id@,
            decreases self.recreating.len() - i,
        {
            if text_eq(self.recreating[i].as_str(), pin_id) {
                return true;
            }
            i += 1;
        }
        false
    }

    /// Records the window size the user chose for the Pin `pin_id`.
    pub fn remember_window_size(&mut self, pin_id: &str, size: WindowSizeBits) -> (r: Result<(), String>)
        requires
            old(self).wf(),
        ensures
            final(self).wf(),
            final(self).recreating_ids() == old(self).recreating_ids(),
            match r {
                Ok(()) => old(self)@.contains_key(pin_id@) && final(self)@ == old(self)@.insert(
                    pin_id@,
                    PinEntryView {
                        doc: old(self)@[pin_id@].doc,
                        meta: PinMeta { window_size: Some(size), ..old(self)@[pin_id@].meta },
                    },
                ),
                Err(e) => !old(self)@.contains_key(pin_id@) && e@ == "pin not found: "@ + pin_id@
                    && final(self)@ == old(self)@,
            },
    {
        match self.position(pin_id) {
            None => Err(joined("pin not found: ", pin_id)),
            Some(i) => {
                proof {
                    self.lemma_at(i as int);
                }
                let mut e = self.entries.remove(i);
                e.meta.window_size = Some(size);
                let ghost ne = e;
                self.entries.insert(i, e);
                proof {
                    assert(self.entries@ =~= old(self).entries@.update(i as int, ne));
                    self.insert_fix(*old(self), i);
                }
                Ok(())
            },
        }
    }
}

// ---------- laws ----------

/// A Pin that was just added is found again with the document and metadata
/// it was added with, and no other Pin changes.
pub proof fn law_insert_then_get(m: Map<Seq<char>, PinEntryView>, k: Seq<char>, e: PinEntryView, other: Seq<char>)
    ensures
        m.insert(k, e).contains_key(k),
        m.insert(k, e)[k] == e,
        other != k ==> (m.insert(k, e).contains_key(other) == m.contains_key(other) && (m.contains_key(other)
            ==> m.insert(k, e)[other] == m[other])),
{
}

/// A creation whose state file could not be written leaves the registry as
/// it was: adding a Pin under a fresh id and then settling the failed write
/// gives back the registry from before.
pub proof fn law_failed_creation_restores(m: Map<Seq<char>, PinEntryView>, k: Seq<char>, e: PinEntryView)
    requires
        !m.contains_key(k),
    ensures
        undo_insert(m.insert(k, e), k) == m,
{
    assert(m.insert(k, e).remove(k) =~= m);
}

/// A removal whose state file could not be written leaves the registry as it
/// was: removing a Pin and then settling the failed write with what was
/// removed gives back the registry from before.
pub proof fn law_failed_removal_restores(m: Map<Seq<char>, PinEntryView>, k: Seq<char>)
    requires
        m.contains_key(k),
        m[k].meta.pin_id@ == k,
    ensures
        undo_remove(m.remove(k), m[k]) == m,
{
    assert(m.remove(k).insert(k, m[k]) =~= m);
}

/// Removing is idempotent: a second removal changes nothing.
pub proof fn law_remove_idempotent(m: Map<Seq<char>, PinEntryView>, k: Seq<char>)
    ensures
        m.remove(k).remove(k) == m.remove(k),
        !m.remove(k).contains_key(k),
{
    assert(m.remove(k).remove(k) =~= m.remove(k));
}

/// A change of state whose state file could not be written leaves the
/// registry as it was: setting a state and then settling the failed write
/// with the previous state and update time gives back the registry from
/// before.
pub proof fn law_failed_state_change_restores(m: Map<Seq<char>, PinEntryView>, k: Seq<char>, s: PinState, now: String)
    requires
        m.contains_key(k),
    ensures
        undo_set_state(m.insert(k, with_state(m[k], s, now)), k, m[k].meta.state, m[k].meta.updated_at) == m,
{
    let m1 = m.insert(k, with_state(m[k], s, now));
    let v = m[k];
    assert(with_state(m1[k], v.meta.state, v.meta.updated_at) == v);
    assert(m1.insert(k, with_state(m1[k], v.meta.state, v.meta.updated_at)) =~= m);
}

/// The Pin list is ordered by creation time, newest first: in a list
/// sorted for it, no Pin was created before one that comes after it.
pub proof fn law_list_newest_created_first(s: Seq<PinMeta>)
    requires
        sorted_metas(s, false, true),
    ensures
        forall|i: int, j: int| 0 <= i < j < s.len() ==> !text_lt(
            (#[trigger] s[i]).created_at@,
            (#[trigger] s[j]).created_at@,
        ),
{
    assert forall|i: int, j: int| 0 <= i < j < s.len() implies !text_lt(
        (#[trigger] s[i]).created_at@,
        (#[trigger] s[j]).created_at@,
    ) by {
        assert(comes_before(s[i], s[j], false, true));
    }
}

/// The quick-restore list is ordered by the time of the last change (when
/// the Pin was hidden), most recent first.
pub proof fn law_recent_hidden_latest_change_first(s: Seq<PinMeta>)
    requires
        sorted_metas(s, true, true),
    ensures
        forall|i: int, j: int| 0 <= i < j < s.len() ==> !text_lt(
            (#[trigger] s[i]).updated_at@,
            (#[trigger] s[j]).updated_at@,
        ),
{
    assert forall|i: int, j: int| 0 <= i < j < s.len() implies !text_lt(
        (#[trigger] s[i]).updated_at@,
        (#[trigger] s[j]).updated_at@,
    ) by {
        assert(comes_before(s[i], s[j], true, true));
    }
}

/// The state file lists Pins by creation time, oldest first.
pub proof fn law_state_file_oldest_created_first(s: Seq<PinMeta>)
    requires
        sorted_metas(s, false, false),
    ensures
        forall|i: int, j: int| 0 <= i < j < s.len() ==> !text_lt(
            (#[trigger] s[j]).created_at@,
            (#[trigger] s[i]).created_at@,
        ),
{
    assert forall|i: int, j: int| 0 <= i < j < s.len() implies !text_lt(
        (#[trigger] s[j]).created_at@,
        (#[trigger] s[i]).created_at@,
    ) by {
        assert(comes_before(s[i], s[j], false, false));
    }
}

/// After a restart no Pin is visible: a visible record comes back hidden, and
/// one without its document comes back failed.
pub proof fn law_loaded_pins_not_visible(m: Map<Seq<char>, PinEntryView>, items: Seq<(PinMeta, Option<PinDocumentView>)>, now: String, k: Seq<char>)
    requires
        loads(m, items, now),
        m.contains_key(k),
    ensures
        m[k].meta.state != PinState::Visible,
        m[k].meta.pin_id@ == k,
{
    let i = choose|i: int| 0 <= i < items.len() && valid_record(items[i].0) && (#[trigger] items[i].0).pin_id@ == k
        && restored(m[k], items[i].0, items[i].1, now) && forall|j: int|
        i < j < items.len() ==> (#[trigger] items[j].0).pin_id@ != k;
}

/// A Pin whose document could not be read comes back failed, keeping its
/// id, title, creation time and source, with a placeholder document.
pub proof fn law_missing_document_fails(meta: PinMeta, e: PinEntryView, now: String)
    requires
        restored(e, meta, None, now),
    ensures
        e.meta.state == PinState::Failed,
        e.meta.pin_id == meta.pin_id && e.meta.title == meta.title && e.meta.created_at == meta.created_at,
        e.doc.blocks.len() == 1,
        e.doc.title == meta.title,
{
}

/// History survives a restart: writing the state file of a registry (its
/// metadata list) and loading it back, with every Pin's document, gives
/// back every Pin with the same document and metadata, except that a
/// visible Pin comes back hidden (stamped `now`). (Pins whose ids the
/// loader refuses are left out of the statement: they are skipped.)
pub proof fn law_restart_keeps_history(
    m: Map<Seq<char>, PinEntryView>,
    s: Seq<PinMeta>,
    items: Seq<(PinMeta, Option<PinDocumentView>)>,
    m2: Map<Seq<char>, PinEntryView>,
    now: String,
)
    requires
        lists(m, s, keep_of(false)),
        forall|k: Seq<char>| #[trigger] m.contains_key(k) ==> valid_record(m[k].meta),
        items.len() == s.len(),
        forall|j: int| 0 <= j < s.len() ==> #[trigger] items[j] == (s[j], Some(m[s[j].pin_id@].doc)),
        loads(m2, items, now),
    ensures
        m2.dom() == m.dom(),
        forall|k: Seq<char>| #[trigger] m.contains_key(k) ==> m2[k].doc == m[k].doc && m2[k].meta == (if m[k].meta.state
            == PinState::Visible {
            PinMeta { state: PinState::Hidden, updated_at: now, ..m[k].meta }
        } else {
            m[k].meta
        }),
{
    assert forall|k: Seq<char>| #[trigger] m.contains_key(k) implies m2.contains_key(k) by {
        assert(keep_of(false)(m[k].meta));
        let j = choose|j: int| 0 <= j < s.len() && (#[trigger] s[j]).pin_id@ == k;
        assert(items[j].0 == s[j]);
        assert(s[j] == m[k].meta);
        assert(valid_record(items[j].0));
    }
    assert forall|k: Seq<char>| #[trigger] m2.contains_key(k) implies m.contains_key(k) && m2[k].doc == m[k].doc
        && m2[k].meta == (if m[k].meta.state == PinState::Visible {
            PinMeta { state: PinState::Hidden, updated_at: now, ..m[k].meta }
        } else {
            m[k].meta
        }) by {
        let i = choose|i: int| 0 <= i < items.len() && valid_record(items[i].0) && (#[trigger] items[i].0).pin_id@ == k
            && restored(m2[k], items[i].0, items[i].1, now) && forall|j: int|
            i < j < items.len() ==> (#[trigger] items[j].0).pin_id@ != k;
        assert(items[i] == (s[i], Some(m[s[i].pin_id@].doc)));
        assert(m.contains_key(s[i].pin_id@) && m[s[i].pin_id@].meta == s[i]);
    }
    assert(m2.dom() =~= m.dom());
}

impl View for PinRegistry {
    type V = Map<Seq<char>, PinEntryView>;

    open spec fn view(&self) -> Map<Seq<char>, PinEntryView> {
        self.entries_map()
    }
}

} // verus!
