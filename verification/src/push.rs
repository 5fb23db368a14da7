//! `agent-pin push`: a Pin JSON file is sent to the desktop app as it is,
//! except that every image block's `path` is replaced by the copy of that
//! image in the store. The JSON is read and written by `serde_json`; the
//! image copies and the request are the caller's. When any step fails,
//! every copy this run made is removed again, and no other file.
use vstd::prelude::*;
use crate::cli::{copied_image_block, image_paths_to_copy, CliError, ImageCopyTracker, RawBlock};
use crate::client::opt_text;
use crate::text::{joined, texts};

verus! {

#[verifier::external_type_specification]
#[verifier::external_body]
pub struct ExJsonValue(serde_json::Value);

/// What `push` reads of one block: its `type` and its `path`, where they
/// are strings.
pub open spec fn raw_view(b: RawBlock) -> (Option<Seq<char>>, Option<Seq<char>>) {
    (opt_text(b.block_type), opt_text(b.path))
}

pub open spec fn raw_views(bs: Seq<RawBlock>) -> Seq<(Option<Seq<char>>, Option<Seq<char>>)> {
    Seq::new(bs.len(), |i: int| raw_view(bs[i]))
}

/// A block whose image is copied: type `image` with a string path.
pub open spec fn copied_image_view(b: (Option<Seq<char>>, Option<Seq<char>>)) -> bool {
    b.0 == Some("image"@) && b.1 is Some
}

/// `plan` lists, in block order, every block of `blocks` whose image is
/// copied, with its path.
pub open spec fn is_copy_plan(blocks: Seq<(Option<Seq<char>>, Option<Seq<char>>)>, plan: Seq<(int, Seq<char>)>) -> bool {
    &&& forall|j: int| 0 <= j < plan.len() ==> 0 <= (#[trigger] plan[j]).0 < blocks.len()
        && copied_image_view(blocks[plan[j].0]) && blocks[plan[j].0].1 == Some(plan[j].1)
    &&& forall|a: int, b: int| 0 <= a < b < plan.len() ==> (#[trigger] plan[a]).0 < (#[trigger] plan[b]).0
    &&& forall|i: int| 0 <= i < blocks.len() && copied_image_view(#[trigger] blocks[i]) ==> exists|j: int|
        0 <= j < plan.len() && plan[j].0 == i
}

pub open spec fn plan_view(plan: Seq<(usize, String)>) -> Seq<(int, Seq<char>)> {
    Seq::new(plan.len(), |i: int| (plan[i].0 as int, plan[i].1@))
}

/// What `serde_json::from_str::<Value>(text)` gives `push`: for each element
/// of the document's `blocks` array (none when there is no such array),
/// its `type` and `path` read with `get` and `as_str` (a `type` is only
/// found on an object); or the parse error's text.
pub uninterp spec fn push_json(text: Seq<char>) -> Result<Seq<(Option<Seq<char>>, Option<Seq<char>>)>, Seq<char>>;

/// What `serde_json::to_string` gives for the document parsed from `text`
/// after each `(i, p)` of `edits`, in order, set `blocks[i]["path"]` to the
/// string `p`: the JSON text, or the error's text.
pub uninterp spec fn push_json_text(text: Seq<char>, edits: Seq<(int, Seq<char>)>) -> Result<Seq<char>, Seq<char>>;

/// A pushed Pin JSON as `serde_json` read it, with the text it came from,
/// what `push` reads of its blocks and the paths set in it since.
pub struct PushJson {
    value: serde_json::Value,
    text: String,
    blocks: Vec<RawBlock>,
    edits: Vec<(usize, String)>,
}

pub struct PushJsonView {
    pub text: Seq<char>,
    pub blocks: Seq<(Option<Seq<char>>, Option<Seq<char>>)>,
    pub edits: Seq<(int, Seq<char>)>,
}

impl View for PushJson {
    type V = PushJsonView;

    closed spec fn view(&self) -> PushJsonView {
        PushJsonView { text: self.text@, blocks: raw_views(self.blocks@), edits: plan_view(self.edits@) }
    }
}

/// `serde_json::from_str::<serde_json::Value>(text)`; on success the
/// `type` and `path` of each element of `blocks` are read with `get` and
/// `as_str`. The result is `push_json(text)`.
#[verifier::external_body]
fn parse_push_json(text: &str) -> (r: Result<PushJson, String>)
    ensures
        match r {
            Ok(d) => (push_json(text@) matches Ok(bs) && bs == d@.blocks) && d@.text == text@ && d@.edits.len() == 0,
            Err(e) => push_json(text@) matches Err(m) && m == e@,
        },
{
    let value: serde_json::Value = serde_json::from_str(text).map_err(|e| e.to_string())?;
    let blocks: Vec<RawBlock> = match value.get("blocks").and_then(|b| b.as_array()) {
        Some(bs) => bs.iter().map(|b| RawBlock {
            block_type: b.get("type").and_then(|t| t.as_str()).map(String::from),
            path: b.get("path").and_then(|p| p.as_str()).map(String::from),
        }).collect(),
        None => Vec::new(),
    };
    Ok(PushJson { value, text: text.to_string(), blocks, edits: Vec::new() })
}

/// `value["blocks"][i]["path"] = Value::String(path)` (`IndexMut` of
/// `serde_json::Value`). It does not panic on a block whose `type` was read
/// as a string, which is an object of the `blocks` array.
#[verifier::external_body]
fn set_block_path(doc: &mut PushJson, i: usize, path: String)
    requires
        i < old(doc)@.blocks.len(),
        old(doc)@.blocks[i as int].0 is Some,
    ensures
        final(doc)@ == (PushJsonView { edits: old(doc)@.edits.push((i as int, path@)), ..old(doc)@ }),
{
    doc.value["blocks"][i]["path"] = serde_json::Value::String(path.clone());
    doc.edits.push((i, path));
}

/// `serde_json::to_string(&value)`: the result is
/// `push_json_text(text, edits)`.
#[verifier::external_body]
fn json_text(doc: &PushJson) -> (r: Result<String, String>)
    ensures
        match r {
            Ok(b) => push_json_text(doc@.text, doc@.edits) matches Ok(t) && t == b@,
            Err(e) => push_json_text(doc@.text, doc@.edits) matches Err(m) && m == e@,
        },
{
    serde_json::to_string(&doc.value).map_err(|e| e.to_string())
}

/// Reads a pushed Pin JSON and lists the images to copy: every block of
/// type `image` with a string `path`, in block order. Text that is not
/// JSON is refused.
pub fn push_plan(content: &str) -> (r: Result<(PushJson, Vec<(usize, String)>), CliError>)
    ensures
        match push_json(content@) {
            Err(m) => r matches Err(e) && e.code@ == "INVALID_INPUT"@ && e.message@ == "解析 Pin JSON 失败: "@ + m,
            Ok(bs) => r matches Ok((d, plan)) && d@.text == content@ && d@.blocks == bs && d@.edits.len() == 0
                && is_copy_plan(bs, plan_view(plan@)),
        },
{
    match parse_push_json(content) {
        Err(m) => Err(CliError::invalid_input(joined("解析 Pin JSON 失败: ", m.as_str()))),
        Ok(d) => {
            let plan = image_paths_to_copy(&d.blocks);
            proof {
                let bs = d@.blocks;
                let pv = plan_view(plan@);
                assert forall|k: int| 0 <= k < d.blocks@.len() implies copied_image_block(#[trigger] d.blocks@[k])
                    == copied_image_view(bs[k]) by {
                    assert(bs[k] == raw_view(d.blocks@[k]));
                }
                assert forall|j: int| 0 <= j < pv.len() implies 0 <= (#[trigger] pv[j]).0 < bs.len()
                    && copied_image_view(bs[pv[j].0]) && bs[pv[j].0].1 == Some(pv[j].1) by {
                    assert(pv[j] == (plan@[j].0 as int, plan@[j].1@));
                    let _ = copied_image_block(d.blocks@[plan@[j].0 as int]);
                }
                assert forall|a: int, b: int| 0 <= a < b < pv.len() implies (#[trigger] pv[a]).0 < (#[trigger] pv[b]).0 by {
                    let _ = plan@[a];
                    let _ = plan@[b];
                }
                assert forall|i: int| 0 <= i < bs.len() && copied_image_view(#[trigger] bs[i]) implies exists|j: int|
                    0 <= j < pv.len() && pv[j].0 == i by {
                    assert(copied_image_block(d.blocks@[i]));
                    let j = choose|j: int| 0 <= j < plan@.len() && plan@[j].0 == i;
                    assert(pv[j].0 == i);
                }
            }
            Ok((d, plan))
        },
    }
}

// ---------- the run ----------

/// What the caller of a push does next.
pub enum PushAction {
    /// Copy the image at this path (as the document wrote it) into the
    /// store, then report with `image_copied`.
    CopyImage(String),
    /// Send this body to the desktop app, then report with `sent`.
    Send(String),
    /// The Pin was created.
    Done,
    /// Remove these files (every copy this run made), then fail with the
    /// error.
    CleanupAndFail(Vec<String>, CliError),
    /// The report was not expected now; nothing changed.
    Nothing,
}

/// A push in progress: the document, the images to copy (the first
/// `doc.edits.len()` of them are done), the copies made so far, and
/// whether the body is out or the run is over.
pub struct PushRun {
    doc: PushJson,
    plan: Vec<(usize, String)>,
    copies: ImageCopyTracker,
    sending: bool,
    over: bool,
}

pub struct PushRunView {
    pub doc: PushJsonView,
    pub plan: Seq<(int, Seq<char>)>,
    pub copies: Seq<Seq<char>>,
    pub sending: bool,
    pub over: bool,
}

impl View for PushRun {
    type V = PushRunView;

    closed spec fn view(&self) -> PushRunView {
        PushRunView {
            doc: self.doc@,
            plan: plan_view(self.plan@),
            copies: self.copies.copies(),
            sending: self.sending,
            over: self.over,
        }
    }
}

/// A run's parts fit together: the plan is the document's, each path set
/// so far went to the block planned for it, and images are still to be
/// copied exactly while the run neither sends nor is over.
pub open spec fn push_run_wf(v: PushRunView) -> bool {
    &&& is_copy_plan(v.doc.blocks, v.plan)
    &&& v.doc.edits.len() <= v.plan.len()
    &&& forall|k: int| 0 <= k < v.doc.edits.len() ==> (#[trigger] v.doc.edits[k]).0 == v.plan[k].0
    &&& (!v.sending && !v.over) ==> v.doc.edits.len() < v.plan.len()
    &&& v.sending ==> v.doc.edits.len() == v.plan.len() && !v.over
}

/// The run after the current image was copied to `stored` (`new_copy`: the
/// file the copy made, none when the image was already in the store).
pub open spec fn after_copy(v: PushRunView, stored: Seq<char>, new_copy: Option<Seq<char>>) -> PushRunView {
    PushRunView {
        doc: PushJsonView { edits: v.doc.edits.push((v.plan[v.doc.edits.len() as int].0, stored)), ..v.doc },
        copies: match new_copy {
            Some(p) => v.copies.push(p),
            None => v.copies,
        },
        ..v
    }
}

/// The run as it stops after a failure: nothing tracked any more.
pub open spec fn stopped(v: PushRunView) -> PushRunView {
    PushRunView { copies: Seq::empty(), sending: false, over: true, ..v }
}

/// `a` removes exactly the copies of `v` and fails with an error of `code`
/// and `message`.
pub open spec fn cleans_up(a: PushAction, v: PushRunView, code: Seq<char>, message: Seq<char>) -> bool {
    a matches PushAction::CleanupAndFail(d, e) && texts(d@) == v.copies && e.code@ == code && e.message@ == message
}

/// What follows once the images of `v` copied so far are in the document:
/// the next image to copy, else the body to send; a body that cannot be
/// written stops the run, removing the copies.
pub open spec fn next_step(v: PushRunView, r: PushRun, a: PushAction) -> bool {
    let n = v.doc.edits.len();
    if n < v.plan.len() {
        r@ == v && (a matches PushAction::CopyImage(p) && p@ == v.plan[n as int].1)
    } else {
        match push_json_text(v.doc.text, v.doc.edits) {
            Ok(b) => r@ == (PushRunView { sending: true, ..v }) && (a matches PushAction::Send(body) && body@ == b),
            Err(m) => r@ == stopped(v) && cleans_up(a, v, "SERIALIZE_FAILED"@, "序列化 Pin JSON 失败: "@ + m),
        }
    }
}

impl PushRun {
    #[verifier::type_invariant]
    spec fn parts_fit(self) -> bool {
        push_run_wf(self@)
    }

    /// Starts a push of the Pin JSON `content`: the images to copy are
    /// listed, and the first step is the first image to copy, or else the
    /// body to send. Text that is not JSON is refused.
    pub fn start(content: &str) -> (r: Result<(PushRun, PushAction), CliError>)
        ensures
            match push_json(content@) {
                Err(m) => r matches Err(e) && e.code@ == "INVALID_INPUT"@ && e.message@ == "解析 Pin JSON 失败: "@ + m,
                Ok(bs) => r matches Ok((run, a)) && is_copy_plan(bs, run@.plan) && next_step(
                    PushRunView {
                        doc: PushJsonView { text: content@, blocks: bs, edits: Seq::empty() },
                        plan: run@.plan,
                        copies: Seq::empty(),
                        sending: false,
                        over: false,
                    },
                    run,
                    a,
                ),
            },
    {
        match push_plan(content) {
            Err(e) => Err(e),
            Ok((doc, plan)) => {
                let copies = ImageCopyTracker::new();
                assert(doc@.edits =~= Seq::<(int, Seq<char>)>::empty());
                assert(copies.copies() =~= Seq::<Seq<char>>::empty());
                Ok(PushRun::proceed(doc, plan, copies))
            },
        }
    }

    /// Takes what copying the current image gave: the path now to put in
    /// the document and the file the copy made (none when the image was
    /// already in the store), or the copy's error, which stops the run and
    /// removes every copy made.
    pub fn image_copied(self, copied: Result<(String, Option<String>), CliError>) -> (r: (PushRun, PushAction))
        ensures
            ({
                let v = self@;
                if v.sending || v.over {
                    r.0@ == v && r.1 is Nothing
                } else {
                    match copied {
                        Err(e) => r.0@ == stopped(v) && cleans_up(r.1, v, e.code@, e.message@),
                        Ok((stored, new_copy)) => next_step(after_copy(v, stored@, opt_text(new_copy)), r.0, r.1),
                    }
                }
            }),
    {
        proof {
            use_type_invariant(&self);
        }
        if self.sending || self.over {
            return (self, PushAction::Nothing);
        }
        let PushRun { mut doc, plan, mut copies, sending, over } = self;
        match copied {
            Err(e) => {
                let ghost before = copies.copies();
                let d = copies.drain();
                assert(texts(d@) =~= before);
                (PushRun { doc, plan, copies, sending: false, over: true }, PushAction::CleanupAndFail(d, e))
            },
            Ok((stored, new_copy)) => {
                let n = doc.edits.len();
                assert(n == doc@.edits.len());
                let i = plan[n].0;
                assert(plan_view(plan@)[n as int].0 == i);
                copies.record(new_copy);
                set_block_path(&mut doc, i, stored);
                PushRun::proceed(doc, plan, copies)
            },
        }
    }

    /// Takes what sending the body gave: the Pin was created, or the error,
    /// which stops the run and removes every copy made.
    pub fn sent(self, result: Result<(), CliError>) -> (r: (PushRun, PushAction))
        ensures
            ({
                let v = self@;
                if !v.sending {
                    r.0@ == v && r.1 is Nothing
                } else {
                    match result {
                        Ok(()) => r.0@ == (PushRunView { sending: false, over: true, ..v }) && r.1 is Done,
                        Err(e) => r.0@ == stopped(v) && cleans_up(r.1, v, e.code@, e.message@),
                    }
                }
            }),
    {
        proof {
            use_type_invariant(&self);
        }
        if !self.sending {
            return (self, PushAction::Nothing);
        }
        let PushRun { doc, plan, mut copies, sending, over } = self;
        match result {
            Ok(()) => (PushRun { doc, plan, copies, sending: false, over: true }, PushAction::Done),
            Err(e) => {
                let ghost before = copies.copies();
                let d = copies.drain();
                assert(texts(d@) =~= before);
                (PushRun { doc, plan, copies, sending: false, over: true }, PushAction::CleanupAndFail(d, e))
            },
        }
    }

    /// The step after the images copied so far: the next image, or the
    /// body.
    fn proceed(doc: PushJson, plan: Vec<(usize, String)>, copies: ImageCopyTracker) -> (r: (PushRun, PushAction))
        requires
            is_copy_plan(doc@.blocks, plan_view(plan@)),
            doc@.edits.len() <= plan@.len(),
            forall|k: int| 0 <= k < doc@.edits.len() ==> (#[trigger] doc@.edits[k]).0 == plan_view(plan@)[k].0,
        ensures
            next_step(
                PushRunView { doc: doc@, plan: plan_view(plan@), copies: copies.copies(), sending: false, over: false },
                r.0,
                r.1,
            ),
    {
        let n = doc.edits.len();
        assert(n == doc@.edits.len());
        if n < plan.len() {
            let p = plan[n].1.clone();
            (PushRun { doc, plan, copies, sending: false, over: false }, PushAction::CopyImage(p))
        } else {
            match json_text(&doc) {
                Ok(body) => (PushRun { doc, plan, copies, sending: true, over: false }, PushAction::Send(body)),
                Err(m) => {
                    let mut copies = copies;
                    let ghost before = copies.copies();
                    let d = copies.drain();
                    assert(texts(d@) =~= before);
                    let e = CliError::new("SERIALIZE_FAILED", joined("序列化 Pin JSON 失败: ", m.as_str()));
                    (PushRun { doc, plan, copies, sending: false, over: true }, PushAction::CleanupAndFail(d, e))
                },
            }
        }
    }
}

// ---------- laws ----------

/// The files a sequence of image copies made: each copy's new file, where
/// it made one, in order.
pub open spec fn new_files(news: Seq<Option<Seq<char>>>) -> Seq<Seq<char>>
    decreases news.len(),
{
    if news.len() == 0 {
        Seq::empty()
    } else {
        let before = new_files(news.drop_last());
        match news.last() {
            Some(p) => before.push(p),
            None => before,
        }
    }
}

/// The run after its images were copied in turn, the `k`-th to `stored[k]`,
/// making the file `news[k]` (or none).
pub open spec fn after_copies(v: PushRunView, stored: Seq<Seq<char>>, news: Seq<Option<Seq<char>>>) -> PushRunView
    decreases stored.len(),
{
    if stored.len() == 0 || news.len() == 0 {
        v
    } else {
        after_copy(after_copies(v, stored.drop_last(), news.drop_last()), stored.last(), news.last())
    }
}

/// A push keeps track of exactly the files its copies made, and sends each
/// image's stored path in the image's own block: from a fresh start, after
/// any number of copies the tracked files are the new files reported, in
/// order (so a failure, which removes the tracked files, removes every new
/// copy and no other file), and the `k`-th path set in the document is the
/// `k`-th stored path, in the `k`-th planned block.
pub proof fn law_push_tracks_its_copies(v: PushRunView, stored: Seq<Seq<char>>, news: Seq<Option<Seq<char>>>)
    requires
        v.copies == Seq::<Seq<char>>::empty(),
        v.doc.edits == Seq::<(int, Seq<char>)>::empty(),
        stored.len() == news.len(),
        stored.len() <= v.plan.len(),
    ensures
        after_copies(v, stored, news).copies == new_files(news),
        after_copies(v, stored, news).doc.edits.len() == stored.len(),
        forall|k: int| 0 <= k < stored.len() ==> #[trigger] after_copies(v, stored, news).doc.edits[k] == (v.plan[k].0, stored[k]),
        after_copies(v, stored, news).plan == v.plan,
        after_copies(v, stored, news).doc.text == v.doc.text,
    decreases stored.len(),
{
    if stored.len() > 0 {
        law_push_tracks_its_copies(v, stored.drop_last(), news.drop_last());
        let w = after_copies(v, stored.drop_last(), news.drop_last());
        let n = stored.len() - 1;
        assert forall|k: int| 0 <= k < stored.len() implies #[trigger] after_copies(v, stored, news).doc.edits[k] == (v.plan[k].0, stored[k]) by {
            if k < n {
                assert(w.doc.edits[k] == (v.plan[k].0, stored.drop_last()[k]));
            }
        }
    } else {
        assert(new_files(news) =~= Seq::<Seq<char>>::empty());
    }
}

} // verus!
