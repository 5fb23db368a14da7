//! Update checks: the version order (SemVer precedence: numeric core, then a
//! release above its pre-releases, then pre-release identifiers one by one),
//! the one-day cache of the last answer, and the results a check reports.
use vstd::prelude::*;
use crate::clock::{rfc3339_valid, seconds_since_rfc3339};
use crate::path::{join, join_path};
use crate::storage::{data_dir, data_dir_path};
use crate::text::{all_digits, chars_between, dec_text, dec_value, digit_char, digit_value, is_ascii_digit, lemma_split_step, split_from, lemma_next_sep, next_sep, next_sep_at, char_count, chars_of, owned, parse_unsigned, parse_unsigned_text, string_of, text_lt, text_less, lemma_text_lt_asymmetric, lemma_text_lt_irreflexive, lemma_text_lt_total, lemma_text_lt_transitive};

verus! {

/// Release page opened for an update (never a URL taken from the network).
pub const REPO_URL: &'static str = "https://github.com/donghao95/agent-pin/releases/latest";

/// How long a cached answer stays fresh, in seconds (one day).
pub const CACHE_TTL_SECS: i64 = 24 * 60 * 60;

// ---------- version keys ----------

/// Pre-release identifier: numeric or alphanumeric.
#[derive(Debug, Clone, PartialEq, Eq)]
pub enum PreId {
    Num(u64),
    Str(String),
}

pub enum PreIdSpec {
    Num(nat),
    Str(Seq<char>),
}

impl PreId {
    pub open spec fn spec(&self) -> PreIdSpec {
        match self {
            PreId::Num(n) => PreIdSpec::Num(*n as nat),
            PreId::Str(s) => PreIdSpec::Str(s@),
        }
    }
}

/// How one pre-release identifier is read: a number when `u64` parsing
/// accepts it, text otherwise.
pub open spec fn pre_id_of(part: Seq<char>) -> PreIdSpec {
    match parse_unsigned(part, 0xffff_ffff_ffff_ffff) {
        Some(n) => PreIdSpec::Num(n),
        None => PreIdSpec::Str(part),
    }
}

/// A version as it is compared.
pub struct VersionKey {
    pub major: nat,
    pub minor: nat,
    pub patch: nat,
    /// No pre-release suffix.
    pub release: bool,
    pub pre: Seq<PreIdSpec>,
}

/// The `i`-th dot-separated number of the core version; a missing or
/// unparsable one counts as 0.
pub open spec fn core_part(parts: Seq<Seq<char>>, i: int) -> nat {
    if 0 <= i < parts.len() {
        match parse_unsigned(parts[i], 0xffff_ffff) {
            Some(n) => n,
            None => 0,
        }
    } else {
        0
    }
}

/// `X.Y.Z` or `X.Y.Z-suffix`, read as a key: the text before the first `-`
/// gives the three numbers, the text after it the pre-release identifiers.
pub open spec fn version_key(s: Seq<char>) -> VersionKey {
    let e = next_sep(s, '-', 0);
    let main = if e < s.len() { s.take(e) } else { s };
    let parts = split_from(main, '.', 0);
    VersionKey {
        major: core_part(parts, 0),
        minor: core_part(parts, 1),
        patch: core_part(parts, 2),
        release: e >= s.len(),
        pre: if e < s.len() {
            split_from(s.skip(e + 1), '.', 0).map_values(|p: Seq<char>| pre_id_of(p))
        } else {
            Seq::empty()
        },
    }
}

// ---------- the order ----------

/// Result of comparing two versions.
#[derive(Debug, Clone, Copy, PartialEq, Eq, Structural)]
pub enum VersionCmp {
    Lt,
    Eq,
    Gt,
}

impl VersionCmp {
    pub fn is_lt(&self) -> (r: bool)
        ensures
            r == (*self == VersionCmp::Lt),
    {
        match self {
            VersionCmp::Lt => true,
            _ => false,
        }
    }
}

pub open spec fn flip(c: VersionCmp) -> VersionCmp {
    match c {
        VersionCmp::Lt => VersionCmp::Gt,
        VersionCmp::Eq => VersionCmp::Eq,
        VersionCmp::Gt => VersionCmp::Lt,
    }
}

pub open spec fn order_nat(a: nat, b: nat) -> VersionCmp {
    if a < b {
        VersionCmp::Lt
    } else if a > b {
        VersionCmp::Gt
    } else {
        VersionCmp::Eq
    }
}

pub open spec fn order_text(a: Seq<char>, b: Seq<char>) -> VersionCmp {
    if text_lt(a, b) {
        VersionCmp::Lt
    } else if text_lt(b, a) {
        VersionCmp::Gt
    } else {
        VersionCmp::Eq
    }
}

/// Numeric identifiers by value, text by character order, and a numeric one
/// below any text one.
pub open spec fn order_pre(a: PreIdSpec, b: PreIdSpec) -> VersionCmp {
    match (a, b) {
        (PreIdSpec::Num(x), PreIdSpec::Num(y)) => order_nat(x, y),
        (PreIdSpec::Num(_), PreIdSpec::Str(_)) => VersionCmp::Lt,
        (PreIdSpec::Str(_), PreIdSpec::Num(_)) => VersionCmp::Gt,
        (PreIdSpec::Str(x), PreIdSpec::Str(y)) => order_text(x, y),
    }
}

/// Identifier lists: the first difference decides, and a list that is a
/// prefix of the other is below it.
pub open spec fn order_pre_list(a: Seq<PreIdSpec>, b: Seq<PreIdSpec>) -> VersionCmp
    decreases a.len(),
{
    if a.len() == 0 {
        if b.len() == 0 {
            VersionCmp::Eq
        } else {
            VersionCmp::Lt
        }
    } else if b.len() == 0 {
        VersionCmp::Gt
    } else if order_pre(a[0], b[0]) != VersionCmp::Eq {
        order_pre(a[0], b[0])
    } else {
        order_pre_list(a.drop_first(), b.drop_first())
    }
}

pub open spec fn then(first: VersionCmp, rest: VersionCmp) -> VersionCmp {
    if first == VersionCmp::Eq {
        rest
    } else {
        first
    }
}

pub open spec fn order_bool(a: bool, b: bool) -> VersionCmp {
    if a == b {
        VersionCmp::Eq
    } else if !a {
        VersionCmp::Lt
    } else {
        VersionCmp::Gt
    }
}

pub open spec fn order_key(a: VersionKey, b: VersionKey) -> VersionCmp {
    then(
        order_nat(a.major, b.major),
        then(
            order_nat(a.minor, b.minor),
            then(
                order_nat(a.patch, b.patch),
                then(order_bool(a.release, b.release), order_pre_list(a.pre, b.pre)),
            ),
        ),
    )
}

/// How version `a` compares with version `b`.
pub open spec fn version_order(a: Seq<char>, b: Seq<char>) -> VersionCmp {
    order_key(version_key(a), version_key(b))
}

// ---------- exec: parsing ----------

/// The number a core part stands for (0 when `u32` parsing refuses it).
fn core_number(part: &Vec<char>) -> (n: u32)
    ensures
        n as nat == (match parse_unsigned(part@, 0xffff_ffff) {
            Some(x) => x,
            None => 0,
        }),
{
    let s = string_of(part, 0, part.len());
    assert(part@.subrange(0, part@.len() as int) =~= part@);
    match parse_unsigned_text(s.as_str(), 0xffff_ffff) {
        Some(x) => x as u32,
        None => 0,
    }
}

fn pre_id(part: &Vec<char>) -> (p: PreId)
    ensures
        p.spec() == pre_id_of(part@),
{
    let s = string_of(part, 0, part.len());
    assert(part@.subrange(0, part@.len() as int) =~= part@);
    match parse_unsigned_text(s.as_str(), 0xffff_ffff_ffff_ffff) {
        Some(x) => PreId::Num(x),
        None => PreId::Str(s),
    }
}

/// The three core numbers of `main` (`X.Y.Z`, missing parts 0).
fn core_numbers(main: &Vec<char>) -> (r: (u32, u32, u32))
    ensures
        r.0 as nat == core_part(split_from(main@, '.', 0), 0),
        r.1 as nat == core_part(split_from(main@, '.', 0), 1),
        r.2 as nat == core_part(split_from(main@, '.', 0), 2),
{
    let ghost all = split_from(main@, '.', 0);
    let mut n0: u32 = 0;
    let mut n1: u32 = 0;
    let mut n2: u32 = 0;
    // the number of parts read so far, counted up to 3
    let mut seen: usize = 0;
    let mut start: usize = 0;
    let ghost mut done: Seq<Seq<char>> = Seq::empty();
    assert(all == done + split_from(main@, '.', 0));
    loop
        invariant_except_break
            start <= main.len(),
            all == done + split_from(main@, '.', start as int),
        invariant
            seen == (if done.len() < 3 { done.len() } else { 3 }),
            done.len() <= all.len(),
            forall|k: int| 0 <= k < done.len() ==> done[k] == all[k],
            seen > 0 ==> n0 as nat == core_part(all, 0),
            seen > 1 ==> n1 as nat == core_part(all, 1),
            seen > 2 ==> n2 as nat == core_part(all, 2),
            seen <= 0 ==> n0 == 0,
            seen <= 1 ==> n1 == 0,
            seen <= 2 ==> n2 == 0,
        ensures
            all == done,
        decreases main.len() - start,
    {
        let e = next_sep_at(main, '.', start);
        proof {
            lemma_split_step(main@, '.', start as int);
            lemma_next_sep(main@, '.', start as int);
        }
        let part = chars_between(main, start, e);
        let ghost piece = main@.subrange(start as int, e as int);
        proof {
            assert(all[done.len() as int] == piece);
        }
        if seen < 3 {
            let n = core_number(&part);
            if seen == 0 {
                n0 = n;
            } else if seen == 1 {
                n1 = n;
            } else {
                n2 = n;
            }
            seen += 1;
        }
        proof {
            if e >= main.len() {
                assert(all =~= done + seq![piece]);
            } else {
                assert(done + (seq![piece] + split_from(main@, '.', e + 1)) =~= (done + seq![piece]) + split_from(main@, '.', e + 1));
            }
            done = done + seq![piece];
        }
        if e >= main.len() {
            break;
        }
        start = e + 1;
    }
    (n0, n1, n2)
}


pub open spec fn pre_specs(v: Seq<PreId>) -> Seq<PreIdSpec> {
    Seq::new(v.len(), |i: int| v[i].spec())
}

/// The pre-release identifiers of `suffix` (split at every `.`).
fn pre_ids(suffix: &Vec<char>) -> (r: Vec<PreId>)
    ensures
        pre_specs(r@) == split_from(suffix@, '.', 0).map_values(|p: Seq<char>| pre_id_of(p)),
{
    let ghost all = split_from(suffix@, '.', 0);
    let mut r: Vec<PreId> = Vec::new();
    let mut start: usize = 0;
    let ghost mut done: Seq<Seq<char>> = Seq::empty();
    assert(all == done + split_from(suffix@, '.', 0));
    loop
        invariant_except_break
            start <= suffix.len(),
            all == done + split_from(suffix@, '.', start as int),
        invariant
            r@.len() == done.len(),
            done.len() <= all.len(),
            forall|k: int| 0 <= k < done.len() ==> done[k] == all[k],
            forall|k: int| 0 <= k < r@.len() ==> (#[trigger] r@[k]).spec() == pre_id_of(all[k]),
        ensures
            all == done,
        decreases suffix.len() - start,
    {
        let e = next_sep_at(suffix, '.', start);
        proof {
            lemma_split_step(suffix@, '.', start as int);
            lemma_next_sep(suffix@, '.', start as int);
        }
        let part = chars_between(suffix, start, e);
        let ghost piece = suffix@.subrange(start as int, e as int);
        proof {
            assert(all[done.len() as int] == piece);
        }
        r.push(pre_id(&part));
        proof {
            if e >= suffix.len() {
                assert(all =~= done + seq![piece]);
            } else {
                assert(done + (seq![piece] + split_from(suffix@, '.', e + 1)) =~= (done + seq![piece]) + split_from(suffix@, '.', e + 1));
            }
            done = done + seq![piece];
        }
        if e >= suffix.len() {
            break;
        }
        start = e + 1;
    }
    assert(pre_specs(r@) =~= all.map_values(|p: Seq<char>| pre_id_of(p)));
    r
}

/// Reads `s` as `(major, minor, patch, is_release, pre_release_ids)`.
pub fn parse_version(s: &str) -> (r: (u32, u32, u32, bool, Vec<PreId>))
    ensures
        r.0 as nat == version_key(s@).major,
        r.1 as nat == version_key(s@).minor,
        r.2 as nat == version_key(s@).patch,
        r.3 == version_key(s@).release,
        pre_specs(r.4@) == version_key(s@).pre,
{
    let v = chars_of(s);
    let e = next_sep_at(&v, '-', 0);
    proof {
        lemma_next_sep(v@, '-', 0);
    }
    if e < v.len() {
        let main = chars_between(&v, 0, e);
        let suffix = chars_between(&v, e + 1, v.len());
        assert(main@ =~= s@.take(e as int));
        assert(suffix@ =~= s@.skip(e + 1));
        let (a, b, c) = core_numbers(&main);
        let pre = pre_ids(&suffix);
        (a, b, c, false, pre)
    } else {
        let (a, b, c) = core_numbers(&v);
        let pre: Vec<PreId> = Vec::new();
        assert(pre_specs(pre@) =~= Seq::<PreIdSpec>::empty());
        (a, b, c, true, pre)
    }
}

fn compare_nat(a: u64, b: u64) -> (r: VersionCmp)
    ensures
        r == order_nat(a as nat, b as nat),
{
    if a < b {
        VersionCmp::Lt
    } else if a > b {
        VersionCmp::Gt
    } else {
        VersionCmp::Eq
    }
}

fn compare_pre(a: &PreId, b: &PreId) -> (r: VersionCmp)
    ensures
        r == order_pre(a.spec(), b.spec()),
{
    match (a, b) {
        (PreId::Num(x), PreId::Num(y)) => compare_nat(*x, *y),
        (PreId::Num(_), PreId::Str(_)) => VersionCmp::Lt,
        (PreId::Str(_), PreId::Num(_)) => VersionCmp::Gt,
        (PreId::Str(x), PreId::Str(y)) => {
            if text_less(x.as_str(), y.as_str()) {
                VersionCmp::Lt
            } else if text_less(y.as_str(), x.as_str()) {
                VersionCmp::Gt
            } else {
                VersionCmp::Eq
            }
        },
    }
}

fn compare_pre_lists(a: &Vec<PreId>, b: &Vec<PreId>) -> (r: VersionCmp)
    ensures
        r == order_pre_list(pre_specs(a@), pre_specs(b@)),
{
    let ghost pa = pre_specs(a@);
    let ghost pb = pre_specs(b@);
    let mut i: usize = 0;
    assert(pa.skip(0) =~= pa);
    assert(pb.skip(0) =~= pb);
    while i < a.len() && i < b.len()
        invariant
            i <= a.len(),
            i <= b.len(),
            pa == pre_specs(a@),
            pb == pre_specs(b@),
            order_pre_list(pa, pb) == order_pre_list(pa.skip(i as int), pb.skip(i as int)),
        decreases a.len() - i,
    {
        let c = compare_pre(&a[i], &b[i]);
        assert(pa.skip(i as int)[0] == a@[i as int].spec());
        assert(pb.skip(i as int)[0] == b@[i as int].spec());
        if c != VersionCmp::Eq {
            return c;
        }
        assert(pa.skip(i as int).drop_first() =~= pa.skip(i + 1));
        assert(pb.skip(i as int).drop_first() =~= pb.skip(i + 1));
        i += 1;
    }
    if i == a.len() {
        if i == b.len() {
            VersionCmp::Eq
        } else {
            VersionCmp::Lt
        }
    } else {
        VersionCmp::Gt
    }
}

fn then_exec(first: VersionCmp, rest: VersionCmp) -> (r: VersionCmp)
    ensures
        r == then(first, rest),
{
    if first == VersionCmp::Eq {
        rest
    } else {
        first
    }
}

/// Compares two versions (see `version_order`).
pub fn compare_version(a: &str, b: &str) -> (r: VersionCmp)
    ensures
        r == version_order(a@, b@),
{
    let pa = parse_version(a);
    let pb = parse_version(b);
    let rel = if pa.3 == pb.3 {
        VersionCmp::Eq
    } else if !pa.3 {
        VersionCmp::Lt
    } else {
        VersionCmp::Gt
    };
    let pre = compare_pre_lists(&pa.4, &pb.4);
    let patch = compare_nat(pa.2 as u64, pb.2 as u64);
    let minor = compare_nat(pa.1 as u64, pb.1 as u64);
    let major = compare_nat(pa.0 as u64, pb.0 as u64);
    then_exec(major, then_exec(minor, then_exec(patch, then_exec(rel, pre))))
}

// ---------- laws of the order ----------

proof fn lemma_order_text(a: Seq<char>, b: Seq<char>, c: Seq<char>)
    ensures
        order_text(a, a) == VersionCmp::Eq,
        order_text(b, a) == flip(order_text(a, b)),
        order_text(a, b) == VersionCmp::Eq ==> a == b,
        order_text(a, b) == VersionCmp::Lt && order_text(b, c) == VersionCmp::Lt ==> order_text(a, c) == VersionCmp::Lt,
{
    lemma_text_lt_irreflexive(a);
    lemma_text_lt_asymmetric(a, b);
    lemma_text_lt_total(a, b);
    if text_lt(a, b) && text_lt(b, c) {
        lemma_text_lt_transitive(a, b, c);
        lemma_text_lt_asymmetric(a, c);
    }
}

proof fn lemma_order_pre(a: PreIdSpec, b: PreIdSpec, c: PreIdSpec)
    ensures
        order_pre(a, a) == VersionCmp::Eq,
        order_pre(b, a) == flip(order_pre(a, b)),
        order_pre(a, b) == VersionCmp::Eq ==> a == b,
        order_pre(a, b) == VersionCmp::Lt && order_pre(b, c) == VersionCmp::Lt ==> order_pre(a, c) == VersionCmp::Lt,
{
    match (a, b, c) {
        (PreIdSpec::Str(x), PreIdSpec::Str(y), PreIdSpec::Str(z)) => lemma_order_text(x, y, z),
        (PreIdSpec::Str(x), PreIdSpec::Str(y), _) => lemma_order_text(x, y, y),
        (PreIdSpec::Str(x), _, _) => lemma_order_text(x, x, x),
        _ => {},
    }
}

proof fn lemma_order_pre_list(a: Seq<PreIdSpec>, b: Seq<PreIdSpec>, c: Seq<PreIdSpec>)
    ensures
        order_pre_list(a, a) == VersionCmp::Eq,
        order_pre_list(b, a) == flip(order_pre_list(a, b)),
        order_pre_list(a, b) == VersionCmp::Eq ==> a == b,
        order_pre_list(a, b) == VersionCmp::Lt && order_pre_list(b, c) == VersionCmp::Lt ==> order_pre_list(a, c) == VersionCmp::Lt,
    decreases a.len(),
{
    if a.len() > 0 {
        lemma_order_pre(a[0], a[0], a[0]);
        if b.len() > 0 {
            lemma_order_pre(a[0], b[0], if c.len() > 0 { c[0] } else { b[0] });
            if c.len() > 0 {
                lemma_order_pre(b[0], c[0], a[0]);
                lemma_order_pre(a[0], c[0], b[0]);
            }
            lemma_order_pre_list(a.drop_first(), b.drop_first(), if c.len() > 0 { c.drop_first() } else { b.drop_first() });
            if order_pre_list(a, b) == VersionCmp::Eq {
                assert(a =~= seq![a[0]] + a.drop_first());
                assert(b =~= seq![b[0]] + b.drop_first());
            }
        } else {
            lemma_order_pre_list(a.drop_first(), a.drop_first(), a.drop_first());
        }
    } else if b.len() == 0 {
        assert(a =~= b);
    }
}

proof fn lemma_order_nat(a: nat, b: nat, c: nat)
    ensures
        order_nat(a, a) == VersionCmp::Eq,
        order_nat(b, a) == flip(order_nat(a, b)),
        order_nat(a, b) == VersionCmp::Eq ==> a == b,
        order_nat(a, b) == VersionCmp::Lt && order_nat(b, c) == VersionCmp::Lt ==> order_nat(a, c) == VersionCmp::Lt,
{
}

proof fn lemma_then(x1: VersionCmp, y1: VersionCmp, x2: VersionCmp, y2: VersionCmp, z1: VersionCmp, z2: VersionCmp)
    requires
        // first component: x1 = o(a,b), y1 = o(b,c), z1 = o(a,c); second likewise
        x1 == VersionCmp::Eq ==> z1 == y1,
        y1 == VersionCmp::Eq ==> z1 == x1,
        x1 == VersionCmp::Lt && y1 == VersionCmp::Lt ==> z1 == VersionCmp::Lt,
        x1 == VersionCmp::Eq && y1 == VersionCmp::Eq ==> (x2 == VersionCmp::Lt && y2 == VersionCmp::Lt ==> z2 == VersionCmp::Lt),
        x1 == VersionCmp::Eq && y1 == VersionCmp::Eq ==> (x2 == VersionCmp::Eq ==> z2 == y2),
        x1 == VersionCmp::Eq && y1 == VersionCmp::Eq ==> (y2 == VersionCmp::Eq ==> z2 == x2),
    ensures
        then(x1, x2) == VersionCmp::Lt && then(y1, y2) == VersionCmp::Lt ==> then(z1, z2) == VersionCmp::Lt,
        then(x1, x2) == VersionCmp::Eq ==> then(z1, z2) == then(y1, y2),
        then(y1, y2) == VersionCmp::Eq ==> then(z1, z2) == then(x1, x2),
{
}

proof fn lemma_order_key(a: VersionKey, b: VersionKey, c: VersionKey)
    ensures
        order_key(a, a) == VersionCmp::Eq,
        order_key(b, a) == flip(order_key(a, b)),
        order_key(a, b) == VersionCmp::Lt && order_key(b, c) == VersionCmp::Lt ==> order_key(a, c) == VersionCmp::Lt,
{
    lemma_order_nat(a.major, b.major, c.major);
    lemma_order_nat(b.major, c.major, a.major);
    lemma_order_nat(a.major, c.major, b.major);
    lemma_order_nat(a.minor, b.minor, c.minor);
    lemma_order_nat(b.minor, c.minor, a.minor);
    lemma_order_nat(a.minor, c.minor, b.minor);
    lemma_order_nat(a.patch, b.patch, c.patch);
    lemma_order_nat(b.patch, c.patch, a.patch);
    lemma_order_nat(a.patch, c.patch, b.patch);
    lemma_order_pre_list(a.pre, b.pre, c.pre);
    lemma_order_pre_list(b.pre, c.pre, a.pre);
    lemma_order_pre_list(a.pre, c.pre, b.pre);
    let rab = then(order_bool(a.release, b.release), order_pre_list(a.pre, b.pre));
    let rbc = then(order_bool(b.release, c.release), order_pre_list(b.pre, c.pre));
    let rac = then(order_bool(a.release, c.release), order_pre_list(a.pre, c.pre));
    lemma_then(order_bool(a.release, b.release), order_bool(b.release, c.release), order_pre_list(a.pre, b.pre), order_pre_list(b.pre, c.pre), order_bool(a.release, c.release), order_pre_list(a.pre, c.pre));
    let pab = then(order_nat(a.patch, b.patch), rab);
    let pbc = then(order_nat(b.patch, c.patch), rbc);
    let pac = then(order_nat(a.patch, c.patch), rac);
    lemma_then(order_nat(a.patch, b.patch), order_nat(b.patch, c.patch), rab, rbc, order_nat(a.patch, c.patch), rac);
    let mab = then(order_nat(a.minor, b.minor), pab);
    let mbc = then(order_nat(b.minor, c.minor), pbc);
    let mac = then(order_nat(a.minor, c.minor), pac);
    lemma_then(order_nat(a.minor, b.minor), order_nat(b.minor, c.minor), pab, pbc, order_nat(a.minor, c.minor), pac);
    lemma_then(order_nat(a.major, b.major), order_nat(b.major, c.major), mab, mbc, order_nat(a.major, c.major), mac);
}

/// Every version equals itself.
pub proof fn law_version_order_reflexive(a: Seq<char>)
    ensures
        version_order(a, a) == VersionCmp::Eq,
{
    lemma_order_key(version_key(a), version_key(a), version_key(a));
}

/// Comparing the other way round gives the opposite answer.
pub proof fn law_version_order_antisymmetric(a: Seq<char>, b: Seq<char>)
    ensures
        version_order(b, a) == flip(version_order(a, b)),
{
    lemma_order_key(version_key(a), version_key(b), version_key(a));
}

/// `a < b` and `b < c` give `a < c`.
pub proof fn law_version_order_transitive(a: Seq<char>, b: Seq<char>, c: Seq<char>)
    requires
        version_order(a, b) == VersionCmp::Lt,
        version_order(b, c) == VersionCmp::Lt,
    ensures
        version_order(a, c) == VersionCmp::Lt,
{
    lemma_order_key(version_key(a), version_key(b), version_key(c));
}

/// A pre-release is below the release with the same core numbers.
pub proof fn law_prerelease_below_release(a: Seq<char>, b: Seq<char>)
    requires
        version_key(a).major == version_key(b).major,
        version_key(a).minor == version_key(b).minor,
        version_key(a).patch == version_key(b).patch,
        !version_key(a).release,
        version_key(b).release,
    ensures
        version_order(a, b) == VersionCmp::Lt,
{
}


/// Two versions compare equal exactly when they read as the same version:
/// the same core numbers, both releases or both pre-releases, and the same
/// pre-release identifiers.
pub proof fn law_version_order_eq_iff_same_key(a: Seq<char>, b: Seq<char>)
    ensures
        (version_order(a, b) == VersionCmp::Eq) == (version_key(a) == version_key(b)),
{
    let ka = version_key(a);
    let kb = version_key(b);
    lemma_order_key(ka, ka, ka);
    lemma_order_nat(ka.major, kb.major, kb.major);
    lemma_order_nat(ka.minor, kb.minor, kb.minor);
    lemma_order_nat(ka.patch, kb.patch, kb.patch);
    lemma_order_pre_list(ka.pre, kb.pre, kb.pre);
    if version_order(a, b) == VersionCmp::Eq {
        assert(ka.major == kb.major && ka.minor == kb.minor && ka.patch == kb.patch);
        assert(ka.release == kb.release);
        assert(ka.pre =~= kb.pre);
    }
}

/// Numeric pre-release identifiers compare by their value.
pub proof fn law_numeric_ids_by_value(x: nat, y: nat)
    ensures
        (order_pre(PreIdSpec::Num(x), PreIdSpec::Num(y)) == VersionCmp::Lt) == (x < y),
        (order_pre(PreIdSpec::Num(x), PreIdSpec::Num(y)) == VersionCmp::Eq) == (x == y),
{
}

/// A numeric pre-release identifier is below every text one.
pub proof fn law_numeric_id_below_text(x: nat, t: Seq<char>)
    ensures
        order_pre(PreIdSpec::Num(x), PreIdSpec::Str(t)) == VersionCmp::Lt,
        order_pre(PreIdSpec::Str(t), PreIdSpec::Num(x)) == VersionCmp::Gt,
{
}

/// A list of pre-release identifiers that is a proper prefix of another is
/// below it.
pub proof fn law_shorter_pre_list_below(a: Seq<PreIdSpec>, b: Seq<PreIdSpec>)
    requires
        a.len() < b.len(),
        a == b.take(a.len() as int),
    ensures
        order_pre_list(a, b) == VersionCmp::Lt,
    decreases a.len(),
{
    if a.len() > 0 {
        lemma_order_pre(a[0], a[0], a[0]);
        assert(a.drop_first() =~= b.drop_first().take(a.len() - 1));
        law_shorter_pre_list_below(a.drop_first(), b.drop_first());
    }
}


proof fn lemma_digit(d: nat)
    requires
        d < 10,
    ensures
        is_ascii_digit(digit_char(d)),
        digit_value(digit_char(d)) == d,
        digit_char(d) != '.' && digit_char(d) != '-' && digit_char(d) != '+',
{
    assert((((d + 48) as u32) as char) as u32 == (d + 48) as u32);
}

proof fn lemma_dec_text_reads_back(n: nat)
    ensures
        dec_text(n).len() >= 1,
        all_digits(dec_text(n)),
        dec_value(dec_text(n)) == n,
        forall|k: int| 0 <= k < dec_text(n).len() ==> (#[trigger] dec_text(n)[k]) != '.' && dec_text(n)[k] != '-',
    decreases n,
{
    lemma_digit(n % 10);
    if n < 10 {
        let t = dec_text(n);
        assert(t.drop_last() =~= Seq::<char>::empty());
        assert(dec_value(Seq::<char>::empty()) == 0);
        assert(t.last() == digit_char(n));
        assert(dec_value(t) == dec_value(t.drop_last()) * 10 + digit_value(t.last()));
    } else {
        lemma_dec_text_reads_back(n / 10);
        let t = dec_text(n / 10);
        let c = digit_char(n % 10);
        assert(dec_text(n) == t.push(c));
        assert(dec_text(n).drop_last() =~= t);
        assert(dec_text(n).last() == c);
        assert(dec_value(dec_text(n)) == dec_value(t) * 10 + digit_value(c));
        assert(n == (n / 10) * 10 + n % 10);
        assert forall|k: int| 0 <= k < dec_text(n).len() implies is_ascii_digit(#[trigger] dec_text(n)[k])
            && dec_text(n)[k] != '.' && dec_text(n)[k] != '-' by {
            if k < t.len() {
                assert(dec_text(n)[k] == t[k]);
            }
        }
    }
}

proof fn lemma_next_sep_is(s: Seq<char>, c: char, start: int, e: int)
    requires
        0 <= start <= e <= s.len(),
        forall|k: int| start <= k < e ==> s[k] != c,
        e == s.len() || s[e] == c,
    ensures
        next_sep(s, c, start) == e,
    decreases e - start,
{
    if start < e {
        lemma_next_sep_is(s, c, start + 1, e);
    }
}

/// The numeral `x.y.z`.
pub open spec fn core_text(x: nat, y: nat, z: nat) -> Seq<char> {
    dec_text(x) + seq!['.'] + dec_text(y) + seq!['.'] + dec_text(z)
}

/// Each core number is read in full as a `u32`: `x.y.z` is the release
/// with major `x`, minor `y` and patch `z`.
pub proof fn law_core_numbers_read_in_full(x: nat, y: nat, z: nat)
    requires
        x <= 0xffff_ffff,
        y <= 0xffff_ffff,
        z <= 0xffff_ffff,
    ensures
        version_key(core_text(x, y, z)).major == x,
        version_key(core_text(x, y, z)).minor == y,
        version_key(core_text(x, y, z)).patch == z,
        version_key(core_text(x, y, z)).release,
        version_key(core_text(x, y, z)).pre.len() == 0,
{
    lemma_dec_text_reads_back(x);
    lemma_dec_text_reads_back(y);
    lemma_dec_text_reads_back(z);
    let a = dec_text(x);
    let b = dec_text(y);
    let c = dec_text(z);
    let s = core_text(x, y, z);
    let p1 = a.len() as int;
    let p2 = (a.len() + 1 + b.len()) as int;
    assert(s.len() == a.len() + b.len() + c.len() + 2);
    assert forall|k: int| 0 <= k < s.len() implies s[k] != '-' && (s[k] == '.' <==> (k == p1 || k == p2)) by {
        if k < p1 {
            assert(s[k] == a[k]);
        } else if k == p1 || k == p2 {
        } else if k < p2 {
            assert(s[k] == b[k - p1 - 1]);
        } else {
            assert(s[k] == c[k - p2 - 1]);
        }
    }
    lemma_next_sep_is(s, '-', 0, s.len() as int);
    lemma_next_sep_is(s, '.', 0, p1);
    lemma_next_sep_is(s, '.', p1 + 1, p2);
    lemma_next_sep_is(s, '.', p2 + 1, s.len() as int);
    lemma_split_step(s, '.', 0);
    lemma_split_step(s, '.', p1 + 1);
    lemma_split_step(s, '.', p2 + 1);
    let parts = split_from(s, '.', 0);
    assert(s.subrange(0, p1) =~= a);
    assert(s.subrange(p1 + 1, p2) =~= b);
    assert(s.subrange(p2 + 1, s.len() as int) =~= c);
    assert(parts =~= seq![a, b, c]);
    assert(a[0] != '+' && b[0] != '+' && c[0] != '+') by {
        assert(is_ascii_digit(a[0]) && is_ascii_digit(b[0]) && is_ascii_digit(c[0]));
    }
}

/// Versions `x.y.z` compare by their numbers in turn: major, then minor,
/// then patch (so `0.9.0` is below `0.10.0`).
pub proof fn law_core_numbers_order(x1: nat, y1: nat, z1: nat, x2: nat, y2: nat, z2: nat)
    requires
        x1 <= 0xffff_ffff,
        y1 <= 0xffff_ffff,
        z1 <= 0xffff_ffff,
        x2 <= 0xffff_ffff,
        y2 <= 0xffff_ffff,
        z2 <= 0xffff_ffff,
    ensures
        (version_order(core_text(x1, y1, z1), core_text(x2, y2, z2)) == VersionCmp::Lt) == (x1 < x2 || (x1 == x2
            && (y1 < y2 || (y1 == y2 && z1 < z2)))),
        (version_order(core_text(x1, y1, z1), core_text(x2, y2, z2)) == VersionCmp::Eq) == (x1 == x2 && y1 == y2
            && z1 == z2),
{
    law_core_numbers_read_in_full(x1, y1, z1);
    law_core_numbers_read_in_full(x2, y2, z2);
    let k1 = version_key(core_text(x1, y1, z1));
    let k2 = version_key(core_text(x2, y2, z2));
    assert(order_pre_list(k1.pre, k2.pre) == VersionCmp::Eq);
}

// ---------- cache and results ----------

/// `s` without one leading `v`.
pub open spec fn without_v(s: Seq<char>) -> Seq<char> {
    if s.len() > 0 && s[0] == 'v' {
        s.skip(1)
    } else {
        s
    }
}

/// `s.strip_prefix('v').unwrap_or(s)`.
pub fn strip_v(s: &str) -> (r: &str)
    ensures
        r@ == without_v(s@),
{
    let n = char_count(s);
    if n > 0 && s.get_char(0) == 'v' {
        s.substring_char(1, n)
    } else {
        s
    }
}

/// The last answer of the release service, as cached on disk.
#[derive(Debug)]
pub struct UpdateCache {
    /// RFC 3339 time of the check.
    pub last_checked_at: String,
    /// Newest version then (without a `v`).
    pub latest_version: String,
}

/// A cache checked `elapsed` seconds ago (`None`: its time does not parse)
/// is fresh for a day.
pub open spec fn fresh(elapsed: Option<i64>) -> bool {
    elapsed matches Some(e) && e < CACHE_TTL_SECS
}

/// The version a cache still vouches for, `elapsed` seconds after it was
/// checked.
pub open spec fn version_if_fresh(cache: Option<UpdateCache>, elapsed: Option<i64>) -> Option<String> {
    match cache {
        Some(c) => if fresh(elapsed) { Some(c.latest_version) } else { None },
        None => None,
    }
}

/// Whether a cache checked `elapsed` seconds ago (`None`: its time does not
/// parse) is still fresh.
pub fn fresh_after(elapsed: Option<i64>) -> (r: bool)
    ensures
        r == fresh(elapsed),
{
    match elapsed {
        Some(e) => e < CACHE_TTL_SECS,
        None => false,
    }
}

/// Whether the cache was written less than a day ago, measured from its own
/// check time. A check time that does not parse as RFC 3339 is never fresh;
/// otherwise the answer depends on the clock.
pub fn is_cache_fresh(cache: &UpdateCache) -> (r: bool)
    ensures
        exists|e: Option<i64>| #![trigger fresh(e)]
            (e is Some == rfc3339_valid(cache.last_checked_at@)) && r == fresh(e),
        !rfc3339_valid(cache.last_checked_at@) ==> !r,
{
    let e = seconds_since_rfc3339(cache.last_checked_at.as_str());
    fresh_after(e)
}

/// The cached newest version `elapsed` seconds after the cache was checked:
/// present only while the cache is fresh.
pub fn latest_if_fresh(cache: Option<UpdateCache>, elapsed: Option<i64>) -> (r: Option<String>)
    ensures
        r == version_if_fresh(cache, elapsed),
{
    match cache {
        Some(c) => {
            if fresh_after(elapsed) {
                Some(c.latest_version)
            } else {
                None
            }
        },
        None => None,
    }
}

/// How long ago the cache was checked, read from its own check time
/// (`None` without a cache or when that time does not parse).
fn cache_age(cache: &Option<UpdateCache>) -> (r: Option<i64>)
    ensures
        cache matches Some(c) ==> (r is Some == rfc3339_valid(c.last_checked_at@)),
{
    match cache {
        Some(c) => seconds_since_rfc3339(c.last_checked_at.as_str()),
        None => None,
    }
}

/// The cached newest version, when there is a cache and it is fresh. The
/// age is measured from the cache's own check time; how old that is depends
/// on the clock.
pub fn cached_latest_version(cache: Option<UpdateCache>) -> (r: Option<String>)
    ensures
        exists|e: Option<i64>| #![trigger version_if_fresh(cache, e)]
            (cache matches Some(c) ==> (e is Some == rfc3339_valid(c.last_checked_at@)))
            && r == version_if_fresh(cache, e),
        cache is None ==> r is None,
        cache matches Some(c) && !rfc3339_valid(c.last_checked_at@) ==> r is None,
{
    let elapsed = cache_age(&cache);
    latest_if_fresh(cache, elapsed)
}

/// What an update check reports.
#[derive(Debug)]
pub struct UpdateCheckResult {
    pub has_update: bool,
    /// Without a `v`.
    pub current_version: String,
    /// Without a `v`.
    pub latest_version: String,
    /// Always the project's own release page.
    pub release_url: String,
    /// The answer came from the cache (no request was made).
    pub from_cache: bool,
}

/// `r` reports `latest` against `current` (both without a `v`).
pub open spec fn reports_versions(r: UpdateCheckResult, current: Seq<char>, latest: Seq<char>, from_cache: bool) -> bool {
    &&& r.current_version@ == current
    &&& r.latest_version@ == latest
    &&& r.has_update == (version_order(current, latest) == VersionCmp::Lt)
    &&& r.release_url@ == REPO_URL@
    &&& r.from_cache == from_cache
}

/// The report for a newest version `latest` against the running `current`
/// (a leading `v` is dropped from both).
pub fn update_result(current: &str, latest: &str, from_cache: bool) -> (r: UpdateCheckResult)
    ensures
        reports_versions(r, without_v(current@), without_v(latest@), from_cache),
{
    let c = strip_v(current);
    let l = strip_v(latest);
    let has_update = compare_version(c, l).is_lt();
    UpdateCheckResult {
        has_update,
        current_version: owned(c),
        latest_version: owned(l),
        release_url: owned(REPO_URL),
        from_cache,
    }
}

/// The report when the repository has no release yet: the running version
/// is the newest.
pub fn no_release_result(current: &str) -> (r: UpdateCheckResult)
    ensures
        !r.has_update,
        r.current_version@ == without_v(current@),
        r.latest_version@ == without_v(current@),
        r.release_url@ == REPO_URL@,
        !r.from_cache,
{
    let c = strip_v(current);
    UpdateCheckResult {
        has_update: false,
        current_version: owned(c),
        latest_version: owned(c),
        release_url: owned(REPO_URL),
        from_cache: false,
    }
}

/// `r` is what a check can answer from the cache alone, `elapsed` seconds
/// after the cache was checked: a report from the cache exactly when no fresh
/// request was forced and the cache is fresh.
pub open spec fn answers_from_cache(
    r: Option<UpdateCheckResult>,
    force: bool,
    current: Seq<char>,
    cache: Option<UpdateCache>,
    elapsed: Option<i64>,
) -> bool {
    match r {
        None => force || cache is None || !fresh(elapsed),
        Some(x) => !force && (cache matches Some(c) && fresh(elapsed) && reports_versions(
            x,
            without_v(current),
            without_v(c.latest_version@),
            true,
        )),
    }
}

/// The report a check gives from the cache `elapsed` seconds after it was
/// checked: none when `force` asks for a fresh request, when there is no
/// cache, or when it is stale.
pub fn cached_result_after(force: bool, current: &str, cache: Option<UpdateCache>, elapsed: Option<i64>) -> (r: Option<UpdateCheckResult>)
    ensures
        answers_from_cache(r, force, current@, cache, elapsed),
{
    if force {
        return None;
    }
    match cache {
        None => None,
        Some(c) => {
            if fresh_after(elapsed) {
                Some(update_result(current, c.latest_version.as_str(), true))
            } else {
                None
            }
        },
    }
}

/// The report a check can give from the cache alone, its age measured from
/// the cache's own check time: none when `force` asks for a fresh request,
/// when there is no cache, or when it is stale.
pub fn cached_result(force: bool, current: &str, cache: Option<UpdateCache>) -> (r: Option<UpdateCheckResult>)
    ensures
        exists|e: Option<i64>| #![trigger answers_from_cache(r, force, current@, cache, e)]
            (cache matches Some(c) ==> (e is Some == rfc3339_valid(c.last_checked_at@)))
            && answers_from_cache(r, force, current@, cache, e),
        force ==> r is None,
        cache is None ==> r is None,
        r matches Some(x) ==> cache matches Some(c) && rfc3339_valid(c.last_checked_at@)
            && reports_versions(x, without_v(current@), without_v(c.latest_version@), true),
{
    let elapsed = cache_age(&cache);
    cached_result_after(force, current, cache, elapsed)
}

/// `<home>/.agent-pin/update-cache.json`, where the last answer is cached.
pub fn cache_path_for(home: &str) -> (r: String)
    ensures
        r@ == join_path(data_dir_path(home@), "update-cache.json"@),
{
    let d = data_dir(home);
    join(d.as_str(), "update-cache.json")
}

/// The cache entry written after a request: checked `now`, newest `latest`.
pub fn new_update_cache(latest_version: &str, now: String) -> (r: UpdateCache)
    ensures
        r.last_checked_at == now,
        r.latest_version@ == latest_version@,
{
    UpdateCache { last_checked_at: now, latest_version: owned(latest_version) }
}

/// What a check reports after asking the release service. `fetched` is the
/// newest release's tag, `None` when the repository has no release yet, or
/// the request's error. On success the report comes back with the version
/// to cache (none when there was no release).
pub fn result_after_fetch(current: &str, fetched: Result<Option<String>, String>) -> (r: Result<(UpdateCheckResult, Option<String>), String>)
    ensures
        match fetched {
            Err(e) => r == Err::<(UpdateCheckResult, Option<String>), String>(e),
            Ok(None) => r matches Ok((x, c)) && c is None && !x.has_update && x.current_version@
                == without_v(current@) && x.latest_version@ == without_v(current@) && x.release_url@
                == REPO_URL@ && !x.from_cache,
            Ok(Some(tag)) => r matches Ok((x, c)) && reports_versions(x, without_v(current@), without_v(tag@), false)
                && (c matches Some(v) && v@ == without_v(tag@)),
        },
{
    match fetched {
        Err(e) => Err(e),
        Ok(None) => Ok((no_release_result(current), None)),
        Ok(Some(tag)) => {
            let latest = owned(strip_v(tag.as_str()));
            let x = update_result(current, tag.as_str(), false);
            Ok((x, Some(latest)))
        },
    }
}

} // verus!
