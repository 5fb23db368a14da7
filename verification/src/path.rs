//! The pieces of `std::path` that the library relies on, for paths written
//! with `/` separators (the Unix form): `is_absolute`, `join`, `file_name`,
//! `extension`, `parent`, `components`, `starts_with` and `strip_prefix`.
use vstd::prelude::*;
use crate::text::{chars_between, chars_of, join_all, lemma_next_sep, lemma_split_step, next_sep_at, owned, push_char, sep_joined, split_from, string_of, text_eq, texts};

verus! {

/// `Path::is_absolute`: the path starts at the root.
pub open spec fn is_absolute_path(p: Seq<char>) -> bool {
    p.len() > 0 && p[0] == '/'
}

/// `base.join(p)`: an absolute `p` replaces `base`; otherwise `p` is appended,
/// with one separator between them when `base` is non-empty and does not
/// already end with one.
pub open spec fn join_path(base: Seq<char>, p: Seq<char>) -> Seq<char> {
    if is_absolute_path(p) {
        p
    } else if base.len() > 0 && base.last() != '/' {
        base + seq!['/'] + p
    } else {
        base + p
    }
}

/// The start of the component that ends at `end` (just after the nearest
/// separator before `end`, or 0).
pub open spec fn segment_start(p: Seq<char>, end: int) -> int
    decreases end,
{
    if end <= 0 {
        0
    } else if p[end - 1] == '/' {
        end
    } else {
        segment_start(p, end - 1)
    }
}

/// `p[..end]` ends with the component `.` (a lone dot after a separator or at
/// the start).
pub open spec fn ends_with_cur_dir(p: Seq<char>, end: int) -> bool {
    end >= 1 && p[end - 1] == '.' && (end == 1 || p[end - 2] == '/')
}

/// `p[..end]` ends with the component `..`.
pub open spec fn ends_with_parent_dir(p: Seq<char>, end: int) -> bool {
    end >= 2 && p[end - 1] == '.' && p[end - 2] == '.' && (end == 2 || p[end - 3] == '/')
}

/// Where the last component of `p[..end]` ends once trailing separators and
/// `.` components (which `Path` normalises away) are dropped.
pub open spec fn trimmed_end(p: Seq<char>, end: int) -> int
    decreases end,
{
    if end <= 0 {
        0
    } else if p[end - 1] == '/' {
        trimmed_end(p, end - 1)
    } else if ends_with_cur_dir(p, end) {
        trimmed_end(p, end - 1)
    } else {
        end
    }
}

/// `Path::file_name`: the last component when it is a normal one.
pub open spec fn file_name(p: Seq<char>) -> Option<Seq<char>> {
    let e = trimmed_end(p, p.len() as int);
    if e <= 0 || ends_with_parent_dir(p, e) {
        None
    } else {
        Some(p.subrange(segment_start(p, e), e))
    }
}

/// The position of the last `.` in `name[..end]`, or -1.
pub open spec fn last_dot(name: Seq<char>, end: int) -> int
    decreases end,
{
    if end <= 0 {
        -1
    } else if name[end - 1] == '.' {
        end - 1
    } else {
        last_dot(name, end - 1)
    }
}

/// `Path::extension`: what follows the last `.` of the file name, when that
/// dot is not its first character.
pub open spec fn extension(p: Seq<char>) -> Option<Seq<char>> {
    match file_name(p) {
        None => None,
        Some(name) => {
            let k = last_dot(name, name.len() as int);
            if k > 0 {
                Some(name.skip(k + 1))
            } else {
                None
            }
        },
    }
}

/// `Path::parent` of a path: the path without its last component (and the
/// separators and `.` components before it), or `None` when nothing is left
/// to drop (the root, or an empty path).
pub open spec fn parent_path(p: Seq<char>) -> Option<Seq<char>> {
    let e = trimmed_end(p, p.len() as int);
    let root: int = if is_absolute_path(p) { 1 } else { 0 };
    if e <= root {
        None
    } else {
        let s = segment_start(p, e);
        let rest = trimmed_end(p, s);
        Some(p.subrange(0, if rest < root { root } else { rest }))
    }
}

proof fn lemma_segment_start_bounds(p: Seq<char>, end: int)
    requires
        0 <= end <= p.len(),
    ensures
        0 <= segment_start(p, end) <= end,
        forall|k: int| segment_start(p, end) <= k < end ==> p[k] != '/',
        segment_start(p, end) > 0 ==> p[segment_start(p, end) - 1] == '/',
    decreases end,
{
    if end > 0 && p[end - 1] != '/' {
        lemma_segment_start_bounds(p, end - 1);
    }
}

proof fn lemma_trimmed_end_bounds(p: Seq<char>, end: int)
    requires
        0 <= end <= p.len(),
    ensures
        0 <= trimmed_end(p, end) <= end,
    decreases end,
{
    if end > 0 {
        lemma_trimmed_end_bounds(p, end - 1);
    }
}

proof fn lemma_last_dot_bounds(name: Seq<char>, end: int)
    requires
        0 <= end <= name.len(),
    ensures
        -1 <= last_dot(name, end) < end,
        last_dot(name, end) >= 0 ==> name[last_dot(name, end)] == '.',
    decreases end,
{
    if end > 0 && name[end - 1] != '.' {
        lemma_last_dot_bounds(name, end - 1);
    }
}

// ---------- exec ----------

/// `Path::new(p).is_absolute()`.
pub fn is_absolute(p: &Vec<char>) -> (r: bool)
    ensures
        r == is_absolute_path(p@),
{
    p.len() > 0 && p[0] == '/'
}

/// `base.join(p)` as a string.
pub fn join(base: &str, p: &str) -> (r: String)
    ensures
        r@ == join_path(base@, p@),
{
    let pv = chars_of(p);
    if is_absolute(&pv) {
        return owned(p);
    }
    let bv = chars_of(base);
    let mut r = owned(base);
    if bv.len() > 0 && bv[bv.len() - 1] != '/' {
        push_char(&mut r, '/');
    }
    r.append(p);
    r
}

fn find_segment_start(p: &Vec<char>, end: usize) -> (s: usize)
    requires
        end <= p.len(),
    ensures
        s == segment_start(p@, end as int),
{
    let mut s = end;
    while s > 0 && p[s - 1] != '/'
        invariant
            s <= end <= p.len(),
            segment_start(p@, s as int) == segment_start(p@, end as int),
        decreases s,
    {
        s -= 1;
    }
    s
}

fn find_trimmed_end(p: &Vec<char>, end: usize) -> (e: usize)
    requires
        end <= p.len(),
    ensures
        e == trimmed_end(p@, end as int),
{
    let mut e = end;
    while e > 0 && (p[e - 1] == '/' || (p[e - 1] == '.' && (e == 1 || p[e - 2] == '/')))
        invariant
            e <= end <= p.len(),
            trimmed_end(p@, e as int) == trimmed_end(p@, end as int),
        decreases e,
    {
        e -= 1;
    }
    e
}

fn ends_with_dot_dot(p: &Vec<char>, e: usize) -> (r: bool)
    requires
        e <= p.len(),
    ensures
        r == ends_with_parent_dir(p@, e as int),
{
    e >= 2 && p[e - 1] == '.' && p[e - 2] == '.' && (e == 2 || p[e - 3] == '/')
}

/// `Path::new(p).file_name()`, as characters.
pub fn file_name_of(p: &Vec<char>) -> (r: Option<Vec<char>>)
    ensures
        match file_name(p@) {
            Some(n) => r is Some && r->0@ == n,
            None => r is None,
        },
{
    let e = find_trimmed_end(p, p.len());
    proof {
        lemma_trimmed_end_bounds(p@, p@.len() as int);
    }
    if e == 0 || ends_with_dot_dot(p, e) {
        return None;
    }
    let s = find_segment_start(p, e);
    proof {
        lemma_segment_start_bounds(p@, e as int);
    }
    let mut name: Vec<char> = Vec::new();
    let mut i = s;
    while i < e
        invariant
            s <= i <= e <= p.len(),
            name@ == p@.subrange(s as int, i as int),
        decreases e - i,
    {
        name.push(p[i]);
        assert(p@.subrange(s as int, (i + 1) as int) =~= p@.subrange(s as int, i as int).push(
            p@[i as int],
        ));
        i += 1;
    }
    Some(name)
}

/// `Path::new(p).extension()`, as characters.
pub fn extension_of(p: &Vec<char>) -> (r: Option<Vec<char>>)
    ensures
        match extension(p@) {
            Some(x) => r is Some && r->0@ == x,
            None => r is None,
        },
{
    let name = match file_name_of(p) {
        Some(n) => n,
        None => return None,
    };
    let mut k = name.len();
    while k > 0 && name[k - 1] != '.'
        invariant
            k <= name.len(),
            last_dot(name@, k as int) == last_dot(name@, name.len() as int),
        decreases k,
    {
        k -= 1;
    }
    proof {
        lemma_last_dot_bounds(name@, name@.len() as int);
    }
    if k <= 1 {
        return None;
    }
    let mut x: Vec<char> = Vec::new();
    let mut i = k;
    while i < name.len()
        invariant
            k <= i <= name.len(),
            x@ == name@.subrange(k as int, i as int),
        decreases name.len() - i,
    {
        x.push(name[i]);
        assert(name@.subrange(k as int, (i + 1) as int) =~= name@.subrange(k as int, i as int).push(
            name@[i as int],
        ));
        i += 1;
    }
    assert(x@ =~= name@.skip(k as int));
    Some(x)
}

/// `Path::new(p).parent()`, as a string.
pub fn parent_of(p: &str) -> (r: Option<String>)
    ensures
        match parent_path(p@) {
            Some(q) => r is Some && r->0@ == q,
            None => r is None,
        },
{
    let v = chars_of(p);
    let e = find_trimmed_end(&v, v.len());
    let root: usize = if is_absolute(&v) {
        1
    } else {
        0
    };
    proof {
        lemma_trimmed_end_bounds(v@, v@.len() as int);
    }
    if e <= root {
        return None;
    }
    let s = find_segment_start(&v, e);
    proof {
        lemma_segment_start_bounds(v@, e as int);
    }
    let rest = find_trimmed_end(&v, s);
    proof {
        lemma_trimmed_end_bounds(v@, s as int);
    }
    let end = if rest < root {
        root
    } else {
        rest
    };
    Some(string_of(&v, 0, end))
}

// ---------- components ----------

/// Whether a piece between separators is `.`.
pub open spec fn is_cur_dir(piece: Seq<char>) -> bool {
    piece.len() == 1 && piece[0] == '.'
}

/// The pieces that are components: all but empty ones and `.`.
pub open spec fn kept_pieces(pieces: Seq<Seq<char>>) -> Seq<Seq<char>>
    decreases pieces.len(),
{
    if pieces.len() == 0 {
        Seq::empty()
    } else {
        let before = kept_pieces(pieces.drop_last());
        let c = pieces.last();
        if c.len() == 0 || is_cur_dir(c) {
            before
        } else {
            before.push(c)
        }
    }
}

/// What comes before the kept pieces: the root `/` of an absolute path, or
/// the `.` that a relative path starts with.
pub open spec fn path_head(p: Seq<char>, pieces: Seq<Seq<char>>) -> Seq<Seq<char>> {
    if is_absolute_path(p) {
        seq![seq!['/']]
    } else if pieces.len() > 0 && is_cur_dir(pieces[0]) {
        seq![seq!['.']]
    } else {
        Seq::empty()
    }
}

/// `Path::new(p).components()`, each as its text: the root first for an
/// absolute path, a leading `.` of a relative path, then every piece
/// between separators but empty ones and `.` (`..` stays).
pub open spec fn path_components(p: Seq<char>) -> Seq<Seq<char>> {
    path_head(p, split_from(p, '/', 0)) + kept_pieces(split_from(p, '/', 0))
}

/// `a`'s components begin `b`'s (`Path::starts_with`).
pub open spec fn components_prefix(a: Seq<Seq<char>>, b: Seq<Seq<char>>) -> bool {
    a.len() <= b.len() && forall|k: int| 0 <= k < a.len() ==> a[k] == b[k]
}

/// The components of `p`.
pub fn components_of(p: &str) -> (r: Vec<String>)
    ensures
        texts(r@) == path_components(p@),
{
    let v = chars_of(p);
    let abs = is_absolute(&v);
    let ghost all = split_from(v@, '/', 0);
    let mut r: Vec<String> = Vec::new();
    if abs {
        let mut root = String::new();
        push_char(&mut root, '/');
        r.push(root);
    }
    let mut start: usize = 0;
    let ghost mut done: Seq<Seq<char>> = Seq::empty();
    assert(all == done + split_from(v@, '/', 0));
    assert(texts(r@) =~= path_head(v@, done) + kept_pieces(done)) by {
        if abs {
            assert(r@[0]@ == seq!['/']);
        }
    }
    loop
        invariant_except_break
            start <= v.len(),
            all == done + split_from(v@, '/', start as int),
            start == 0 <==> done.len() == 0,
        invariant
            v@ == p@,
            all == split_from(v@, '/', 0),
            abs == is_absolute_path(v@),
            done.len() <= all.len(),
            forall|k: int| 0 <= k < done.len() ==> done[k] == all[k],
            texts(r@) == path_head(v@, done) + kept_pieces(done),
        ensures
            all == done,
        decreases v.len() - start,
    {
        let e = next_sep_at(&v, '/', start);
        proof {
            lemma_split_step(v@, '/', start as int);
            lemma_next_sep(v@, '/', start as int);
        }
        let piece = chars_between(&v, start, e);
        let ghost pv = v@.subrange(start as int, e as int);
        let ghost nd = done.push(pv);
        proof {
            assert(all[done.len() as int] == pv);
            assert(nd.drop_last() =~= done);
            if done.len() > 0 {
                assert(nd[0] == done[0]);
            }
        }
        let dot = piece.len() == 1 && piece[0] == '.';
        if piece.len() == 0 {
            assert(path_head(v@, nd) == path_head(v@, done));
        } else if dot {
            if !abs && start == 0 {
                let mut d = String::new();
                push_char(&mut d, '.');
                let ghost before = r@;
                r.push(d);
                proof {
                    assert(done.len() == 0);
                    assert(kept_pieces(done) =~= Seq::<Seq<char>>::empty());
                    assert(texts(r@) =~= path_head(v@, nd) + kept_pieces(nd)) by {
                        assert(texts(before) =~= Seq::<Seq<char>>::empty());
                    }
                }
            } else {
                assert(path_head(v@, nd) == path_head(v@, done));
            }
        } else {
            let t = string_of(&piece, 0, piece.len());
            assert(piece@.subrange(0, piece@.len() as int) =~= piece@);
            let ghost before = r@;
            r.push(t);
            proof {
                assert(path_head(v@, nd) == path_head(v@, done));
                assert(texts(r@) =~= texts(before).push(pv));
            }
        }
        proof {
            if e >= v.len() {
                assert(all =~= done + seq![pv]);
            } else {
                assert(done + (seq![pv] + split_from(v@, '/', e + 1)) =~= (done + seq![pv]) + split_from(v@, '/', e + 1));
            }
            done = nd;
        }
        if e >= v.len() {
            break;
        }
        start = e + 1;
    }
    r
}

/// Whether `p` lies in the directory `dir` or is it (`Path::starts_with`,
/// by whole components).
pub fn inside_dir(dir: &str, p: &str) -> (r: bool)
    ensures
        r == components_prefix(path_components(dir@), path_components(p@)),
{
    let a = components_of(dir);
    let b = components_of(p);
    if a.len() > b.len() {
        assert(texts(a@).len() > texts(b@).len());
        return false;
    }
    let mut k: usize = 0;
    while k < a.len()
        invariant
            a.len() <= b.len(),
            k <= a.len(),
            texts(a@) == path_components(dir@),
            texts(b@) == path_components(p@),
            forall|j: int| 0 <= j < k ==> texts(a@)[j] == texts(b@)[j],
        decreases a.len() - k,
    {
        if !text_eq(a[k].as_str(), b[k].as_str()) {
            assert(texts(a@)[k as int] != texts(b@)[k as int]);
            return false;
        }
        k += 1;
    }
    true
}

/// The rest of `p` past the directory `dir`, its remaining components
/// joined by `/` (`Path::strip_prefix`), or `None` when `p` is not in
/// `dir`.
pub fn strip_dir(dir: &str, p: &str) -> (r: Option<String>)
    ensures
        match r {
            None => !components_prefix(path_components(dir@), path_components(p@)),
            Some(rest) => components_prefix(path_components(dir@), path_components(p@)) && rest@ == sep_joined(
                path_components(p@).skip(path_components(dir@).len() as int),
                "/"@,
            ),
        },
{
    if !inside_dir(dir, p) {
        return None;
    }
    let a = components_of(dir);
    let b = components_of(p);
    let mut rest: Vec<String> = Vec::new();
    let mut k: usize = a.len();
    assert(texts(a@).len() == a@.len());
    while k < b.len()
        invariant
            a.len() <= k <= b.len(),
            texts(a@) == path_components(dir@),
            texts(b@) == path_components(p@),
            texts(rest@) == texts(b@).subrange(a.len() as int, k as int),
        decreases b.len() - k,
    {
        let ghost before = rest@;
        let t = b[k].clone();
        assert(t@ == texts(b@)[k as int]);
        rest.push(t);
        assert(texts(rest@) =~= texts(before).push(t@));
        assert(texts(rest@) =~= texts(b@).subrange(a.len() as int, k + 1));
        k += 1;
    }
    assert(texts(b@).subrange(a.len() as int, b.len() as int) =~= texts(b@).skip(a.len() as int));
    Some(join_all(&rest, "/"))
}

} // verus!
