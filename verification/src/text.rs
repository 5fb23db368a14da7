//! Character-level text rules shared by the rest of the library: Unicode
//! control and white-space classes, decimal numerals (printing and the
//! parsing rules of `u16`/`u32`/`u64::from_str`), ASCII case folding and a
//! few substring tests.
use vstd::prelude::*;

verus! {

// ---------- character classes ----------

/// Unicode general category `Cc` (what `char::is_control` tests).
pub open spec fn is_control_char(c: char) -> bool {
    (c as u32) <= 0x1f || (0x7f <= (c as u32) && (c as u32) <= 0x9f)
}

/// A control character other than the three that ordinary text needs
/// (line feed, tab, carriage return).
pub open spec fn is_disallowed_control(c: char) -> bool {
    is_control_char(c) && c != '\n' && c != '\t' && c != '\r'
}

pub open spec fn has_disallowed_control(s: Seq<char>) -> bool {
    exists|i: int| 0 <= i < s.len() && is_disallowed_control(#[trigger] s[i])
}

/// The Unicode `White_Space` property (what `char::is_whitespace` tests).
pub open spec fn is_white_space(c: char) -> bool {
    let u = c as u32;
    ||| 0x09 <= u <= 0x0d
    ||| u == 0x20
    ||| u == 0x85
    ||| u == 0xa0
    ||| u == 0x1680
    ||| 0x2000 <= u <= 0x200a
    ||| u == 0x2028
    ||| u == 0x2029
    ||| u == 0x202f
    ||| u == 0x205f
    ||| u == 0x3000
}

/// `s.trim().is_empty()`: nothing but white space (or nothing at all).
pub open spec fn is_blank(s: Seq<char>) -> bool {
    forall|i: int| 0 <= i < s.len() ==> is_white_space(#[trigger] s[i])
}

pub open spec fn is_ascii_digit(c: char) -> bool {
    '0' <= c && c <= '9'
}

pub open spec fn is_ascii_alphanumeric(c: char) -> bool {
    ||| is_ascii_digit(c)
    ||| ('a' <= c && c <= 'z')
    ||| ('A' <= c && c <= 'Z')
}

pub open spec fn digit_value(c: char) -> nat {
    ((c as u32) - ('0' as u32)) as nat
}

pub open spec fn digit_char(d: nat) -> char {
    ((d + ('0' as u32)) as u32) as char
}

// ---------- decimal numerals ----------

pub open spec fn all_digits(s: Seq<char>) -> bool {
    forall|i: int| 0 <= i < s.len() ==> is_ascii_digit(#[trigger] s[i])
}

/// The value of a string of decimal digits (most significant first).
pub open spec fn dec_value(s: Seq<char>) -> nat
    decreases s.len(),
{
    if s.len() == 0 {
        0
    } else {
        dec_value(s.drop_last()) * 10 + digit_value(s.last())
    }
}

/// What `from_str` of an unsigned integer type whose largest value is `max`
/// accepts: an optional `+`, then one or more ASCII digits whose value does
/// not exceed `max`.
pub open spec fn parse_unsigned(s: Seq<char>, max: nat) -> Option<nat> {
    let d = if s.len() > 0 && s[0] == '+' { s.skip(1) } else { s };
    if d.len() > 0 && all_digits(d) && dec_value(d) <= max {
        Some(dec_value(d))
    } else {
        None
    }
}

/// The shortest decimal numeral of `n` (what `Display` prints).
pub open spec fn dec_text(n: nat) -> Seq<char>
    decreases n,
{
    if n < 10 {
        seq![digit_char(n)]
    } else {
        dec_text(n / 10).push(digit_char(n % 10))
    }
}

/// `Display` of a signed integer.
pub open spec fn int_text(n: int) -> Seq<char> {
    if n < 0 {
        seq!['-'] + dec_text((-n) as nat)
    } else {
        dec_text(n as nat)
    }
}

/// `format!("{:0w$}", n)` for a non-negative `n`.
pub open spec fn zero_padded(n: nat, width: nat) -> Seq<char> {
    let t = dec_text(n);
    if t.len() < width {
        Seq::new((width - t.len()) as nat, |i: int| '0') + t
    } else {
        t
    }
}

/// The number of bytes of the UTF-8 encoding of `s` (what `str::len` counts).
pub open spec fn utf8_len(s: Seq<char>) -> nat {
    vstd::utf8::encode_utf8(s).len()
}

// ---------- case and substrings ----------

pub open spec fn ascii_lower_char(c: char) -> char {
    if 'A' <= c && c <= 'Z' {
        ((c as u32) + 32) as char
    } else {
        c
    }
}

/// `str::to_ascii_lowercase`.
pub open spec fn ascii_lower(s: Seq<char>) -> Seq<char> {
    Seq::new(s.len(), |i: int| ascii_lower_char(s[i]))
}

pub open spec fn is_prefix(p: Seq<char>, s: Seq<char>) -> bool {
    p.len() <= s.len() && s.take(p.len() as int) == p
}

/// `s` holds `p` at position `i`.
pub open spec fn occurs_at(s: Seq<char>, p: Seq<char>, i: int) -> bool {
    0 <= i && i + p.len() <= s.len() && s.subrange(i, i + p.len()) == p
}

pub open spec fn contains_text(s: Seq<char>, p: Seq<char>) -> bool {
    exists|i: int| occurs_at(s, p, i)
}

pub open spec fn contains_char(s: Seq<char>, c: char) -> bool {
    exists|i: int| 0 <= i < s.len() && s[i] == c
}

/// The first position at or after `start` that holds `c`, or `s.len()`.
pub open spec fn next_sep(s: Seq<char>, c: char, start: int) -> int
    decreases s.len() - start,
{
    if start < 0 || start >= s.len() {
        s.len() as int
    } else if s[start] == c {
        start
    } else {
        next_sep(s, c, start + 1)
    }
}

pub proof fn lemma_next_sep(s: Seq<char>, c: char, start: int)
    requires
        0 <= start <= s.len(),
    ensures
        start <= next_sep(s, c, start) <= s.len(),
        next_sep(s, c, start) < s.len() ==> s[next_sep(s, c, start)] == c,
        forall|k: int| start <= k < next_sep(s, c, start) ==> s[k] != c,
    decreases s.len() - start,
{
    if start < s.len() && s[start] != c {
        lemma_next_sep(s, c, start + 1);
    }
}

// ---------- ordering of strings ----------

/// `a < b` for strings: lexicographic order of their characters by code
/// point (which is also the byte order of their UTF-8 encodings).
pub open spec fn text_lt(a: Seq<char>, b: Seq<char>) -> bool
    decreases a.len(),
{
    if a.len() == 0 {
        b.len() > 0
    } else if b.len() == 0 {
        false
    } else if a[0] != b[0] {
        (a[0] as int) < (b[0] as int)
    } else {
        text_lt(a.drop_first(), b.drop_first())
    }
}

pub proof fn lemma_text_lt_irreflexive(a: Seq<char>)
    ensures
        !text_lt(a, a),
    decreases a.len(),
{
    if a.len() > 0 {
        lemma_text_lt_irreflexive(a.drop_first());
    }
}

pub proof fn lemma_text_lt_asymmetric(a: Seq<char>, b: Seq<char>)
    ensures
        !(text_lt(a, b) && text_lt(b, a)),
    decreases a.len(),
{
    if a.len() > 0 && b.len() > 0 && a[0] == b[0] {
        lemma_text_lt_asymmetric(a.drop_first(), b.drop_first());
    }
}

pub proof fn lemma_text_lt_transitive(a: Seq<char>, b: Seq<char>, c: Seq<char>)
    requires
        text_lt(a, b),
        text_lt(b, c),
    ensures
        text_lt(a, c),
    decreases a.len(),
{
    if a.len() > 0 && b.len() > 0 && c.len() > 0 && a[0] == b[0] && b[0] == c[0] {
        lemma_text_lt_transitive(a.drop_first(), b.drop_first(), c.drop_first());
    }
}

pub proof fn lemma_text_lt_total(a: Seq<char>, b: Seq<char>)
    ensures
        a == b || text_lt(a, b) || text_lt(b, a),
    decreases a.len(),
{
    if a.len() > 0 && b.len() > 0 {
        if a[0] == b[0] {
            lemma_text_lt_total(a.drop_first(), b.drop_first());
            if a.drop_first() == b.drop_first() {
                assert(a =~= seq![a[0]] + a.drop_first());
                assert(b =~= seq![b[0]] + b.drop_first());
            }
        }
    } else if a.len() == 0 && b.len() == 0 {
        assert(a =~= b);
    }
}

// ---------- exec: conversions ----------

/// The characters of `s`, in order.
pub fn chars_of(s: &str) -> (v: Vec<char>)
    ensures
        v@ == s@,
{
    let mut v: Vec<char> = Vec::new();
    for c in it: s.chars()
        invariant
            v@ == it.seq().take(it.index() as int),
    {
        v.push(c);
    }
    v
}

/// Appends one character to a string (`String::push`).
#[verifier::external_body]
pub fn push_char(s: &mut String, c: char)
    ensures
        final(s)@ == old(s)@.push(c),
{
    s.push(c);
}

/// Appends the characters `v[from..to]` to `s`.
pub fn push_chars(s: &mut String, v: &Vec<char>, from: usize, to: usize)
    requires
        from <= to <= v.len(),
    ensures
        final(s)@ == old(s)@ + v@.subrange(from as int, to as int),
{
    let mut i = from;
    while i < to
        invariant
            from <= i <= to <= v.len(),
            s@ == old(s)@ + v@.subrange(from as int, i as int),
        decreases to - i,
    {
        push_char(s, v[i]);
        assert(v@.subrange(from as int, (i + 1) as int) == v@.subrange(from as int, i as int).push(
            v@[i as int],
        ));
        i += 1;
    }
}

/// A string made of the characters `v[from..to]`.
pub fn string_of(v: &Vec<char>, from: usize, to: usize) -> (s: String)
    requires
        from <= to <= v.len(),
    ensures
        s@ == v@.subrange(from as int, to as int),
{
    let mut s = String::new();
    push_chars(&mut s, v, from, to);
    s
}

/// An owned copy of `s`.
pub fn owned(s: &str) -> (r: String)
    ensures
        r@ == s@,
{
    String::from_str(s)
}

/// `a` followed by `b`.
pub fn joined(a: &str, b: &str) -> (r: String)
    ensures
        r@ == a@ + b@,
{
    let mut r = String::from_str(a);
    r.append(b);
    r
}

// ---------- exec: tests on characters ----------

pub fn is_control(c: char) -> (b: bool)
    ensures
        b == is_control_char(c),
{
    let u = c as u32;
    u <= 0x1f || (0x7f <= u && u <= 0x9f)
}

pub fn is_whitespace(c: char) -> (b: bool)
    ensures
        b == is_white_space(c),
{
    let u = c as u32;
    (0x09 <= u && u <= 0x0d) || u == 0x20 || u == 0x85 || u == 0xa0 || u == 0x1680 || (0x2000
        <= u && u <= 0x200a) || u == 0x2028 || u == 0x2029 || u == 0x202f || u == 0x205f || u
        == 0x3000
}

/// Whether `s` holds a control character other than `\n`, `\t`, `\r`.
pub fn has_disallowed_control_chars(s: &str) -> (b: bool)
    ensures
        b == has_disallowed_control(s@),
{
    let v = chars_of(s);
    let mut i: usize = 0;
    while i < v.len()
        invariant
            v@ == s@,
            i <= v.len(),
            forall|j: int| 0 <= j < i ==> !is_disallowed_control(#[trigger] v@[j]),
        decreases v.len() - i,
    {
        let c = v[i];
        if is_control(c) && c != '\n' && c != '\t' && c != '\r' {
            assert(is_disallowed_control(s@[i as int]));
            return true;
        }
        i += 1;
    }
    false
}

/// `s.trim().is_empty()`.
pub fn is_blank_text(s: &str) -> (b: bool)
    ensures
        b == is_blank(s@),
{
    let v = chars_of(s);
    let mut i: usize = 0;
    while i < v.len()
        invariant
            v@ == s@,
            i <= v.len(),
            forall|j: int| 0 <= j < i ==> is_white_space(#[trigger] v@[j]),
        decreases v.len() - i,
    {
        if !is_whitespace(v[i]) {
            return false;
        }
        i += 1;
    }
    true
}

/// `s.to_ascii_lowercase()` on characters.
pub fn ascii_lower_chars(v: &Vec<char>) -> (r: Vec<char>)
    ensures
        r@ == ascii_lower(v@),
{
    let mut r: Vec<char> = Vec::new();
    let mut i: usize = 0;
    while i < v.len()
        invariant
            i <= v.len(),
            r@ == ascii_lower(v@).take(i as int),
        decreases v.len() - i,
    {
        let c = v[i];
        let l = if 'A' <= c && c <= 'Z' {
            ((c as u32) + 32) as u8 as char
        } else {
            c
        };
        assert(l == ascii_lower_char(c)) by {
            if 'A' <= c && c <= 'Z' {
                assert(((c as u32) + 32) as u8 as char == ((c as u32) + 32) as char);
            }
        }
        r.push(l);
        assert(ascii_lower(v@).take((i + 1) as int) == ascii_lower(v@).take(i as int).push(l));
        i += 1;
    }
    assert(ascii_lower(v@).take(v.len() as int) == ascii_lower(v@));
    r
}

/// Whether the characters `v` spell `t`.
pub fn chars_are(v: &Vec<char>, t: &str) -> (r: bool)
    ensures
        r == (v@ == t@),
{
    let w = chars_of(t);
    chars_equal(v, &w)
}

/// What `format!("{:?}", s)` prints for a string slice: the text in double
/// quotes with `Debug` escapes.
pub uninterp spec fn debug_str_text(s: Seq<char>) -> Seq<char>;

/// `format!("{:?}", s)`.
#[verifier::external_body]
pub fn debug_text(s: &str) -> (r: String)
    ensures
        r@ == debug_str_text(s@),
{
    format!("{:?}", s)
}

/// The number of characters of `s` (`s.chars().count()`).
pub fn char_count(s: &str) -> (n: usize)
    ensures
        n == s@.len(),
{
    s.unicode_len()
}

// ---------- exec: equality and substrings ----------

pub fn chars_equal(a: &Vec<char>, b: &Vec<char>) -> (r: bool)
    ensures
        r == (a@ == b@),
{
    if a.len() != b.len() {
        return false;
    }
    let mut i: usize = 0;
    while i < a.len()
        invariant
            a.len() == b.len(),
            i <= a.len(),
            forall|j: int| 0 <= j < i ==> a@[j] == b@[j],
        decreases a.len() - i,
    {
        if a[i] != b[i] {
            return false;
        }
        i += 1;
    }
    assert(a@ =~= b@);
    true
}

pub fn next_sep_at(v: &Vec<char>, c: char, start: usize) -> (e: usize)
    requires
        start <= v.len(),
    ensures
        e == next_sep(v@, c, start as int),
{
    let mut e = start;
    while e < v.len() && v[e] != c
        invariant
            start <= e <= v.len(),
            next_sep(v@, c, e as int) == next_sep(v@, c, start as int),
        decreases v.len() - e,
    {
        e += 1;
    }
    e
}

/// The characters `v[from..to]`.
pub fn chars_between(v: &Vec<char>, from: usize, to: usize) -> (r: Vec<char>)
    requires
        from <= to <= v.len(),
    ensures
        r@ == v@.subrange(from as int, to as int),
{
    let mut r: Vec<char> = Vec::new();
    let mut i = from;
    while i < to
        invariant
            from <= i <= to <= v.len(),
            r@ == v@.subrange(from as int, i as int),
        decreases to - i,
    {
        r.push(v[i]);
        assert(v@.subrange(from as int, (i + 1) as int) =~= v@.subrange(from as int, i as int).push(v@[i as int]));
        i += 1;
    }
    r
}

/// `a < b` on strings (`String`'s `Ord`).
pub fn text_less(a: &str, b: &str) -> (r: bool)
    ensures
        r == text_lt(a@, b@),
{
    let va = chars_of(a);
    let vb = chars_of(b);
    let mut i: usize = 0;
    assert(va@.skip(0) =~= va@);
    assert(vb@.skip(0) =~= vb@);
    while i < va.len() && i < vb.len() && va[i] == vb[i]
        invariant
            i <= va.len(),
            i <= vb.len(),
            text_lt(va@, vb@) == text_lt(va@.skip(i as int), vb@.skip(i as int)),
        decreases va.len() - i,
    {
        assert(va@.skip(i as int).drop_first() =~= va@.skip(i + 1));
        assert(vb@.skip(i as int).drop_first() =~= vb@.skip(i + 1));
        i += 1;
    }
    if i == va.len() {
        i < vb.len()
    } else if i == vb.len() {
        false
    } else {
        let x = code_point(va[i]);
        let y = code_point(vb[i]);
        x < y
    }
}

/// `a == b` on string slices.
pub fn text_eq(a: &str, b: &str) -> (r: bool)
    ensures
        r == (a@ == b@),
{
    let va = chars_of(a);
    let vb = chars_of(b);
    chars_equal(&va, &vb)
}

/// Whether `v[at..]` starts with `p`.
pub fn chars_occur_at(v: &Vec<char>, p: &Vec<char>, at: usize) -> (r: bool)
    ensures
        r == occurs_at(v@, p@, at as int),
{
    if at > v.len() || p.len() > v.len() - at {
        return false;
    }
    let mut j: usize = 0;
    while j < p.len()
        invariant
            at + p.len() <= v.len(),
            j <= p.len(),
            forall|k: int| 0 <= k < j ==> v@[at + k] == p@[k],
        decreases p.len() - j,
    {
        if v[at + j] != p[j] {
            assert(v@.subrange(at as int, at + p.len())[j as int] != p@[j as int]);
            return false;
        }
        j += 1;
    }
    assert(v@.subrange(at as int, at + p.len()) =~= p@);
    true
}

/// `s.starts_with(p)`.
pub fn starts_with_text(s: &str, p: &str) -> (r: bool)
    ensures
        r == is_prefix(p@, s@),
{
    let v = chars_of(s);
    let w = chars_of(p);
    let r = chars_occur_at(&v, &w, 0);
    proof {
        if r {
            assert(v@.subrange(0, w@.len() as int) == v@.take(w@.len() as int));
        } else if w@.len() <= v@.len() {
            assert(v@.subrange(0, w@.len() as int) == v@.take(w@.len() as int));
        }
    }
    r
}

/// `s.contains(p)`.
pub fn contains_chars(v: &Vec<char>, p: &Vec<char>) -> (r: bool)
    ensures
        r == contains_text(v@, p@),
{
    let mut i: usize = 0;
    while i < v.len()
        invariant
            i <= v.len(),
            forall|k: int| 0 <= k < i ==> !occurs_at(v@, p@, k),
        decreases v.len() - i,
    {
        if chars_occur_at(v, p, i) {
            return true;
        }
        i += 1;
    }
    if chars_occur_at(v, p, v.len()) {
        return true;
    }
    assert forall|k: int| !occurs_at(v@, p@, k) by {
        if 0 <= k && k < v.len() {
        }
    }
    false
}

/// `s.contains(c)`.
pub fn has_char(v: &Vec<char>, c: char) -> (r: bool)
    ensures
        r == contains_char(v@, c),
{
    let mut i: usize = 0;
    while i < v.len()
        invariant
            i <= v.len(),
            forall|k: int| 0 <= k < i ==> v@[k] != c,
        decreases v.len() - i,
    {
        if v[i] == c {
            return true;
        }
        i += 1;
    }
    false
}

/// `s.to_ascii_lowercase()`.
pub fn ascii_lowercase(s: &str) -> (r: String)
    ensures
        r@ == ascii_lower(s@),
{
    let v = chars_of(s);
    let mut r = String::new();
    let mut i: usize = 0;
    while i < v.len()
        invariant
            v@ == s@,
            i <= v.len(),
            r@ == ascii_lower(s@).take(i as int),
        decreases v.len() - i,
    {
        let c = v[i];
        let l = if 'A' <= c && c <= 'Z' {
            ((c as u32) + 32) as u8 as char
        } else {
            c
        };
        assert(l == ascii_lower_char(c)) by {
            if 'A' <= c && c <= 'Z' {
                assert(((c as u32) + 32) as u8 as char == ((c as u32) + 32) as char);
            }
        }
        push_char(&mut r, l);
        assert(ascii_lower(s@).take((i + 1) as int) == ascii_lower(s@).take(i as int).push(l));
        i += 1;
    }
    assert(ascii_lower(s@).take(v.len() as int) == ascii_lower(s@));
    r
}

// ---------- exec: decimal numerals ----------

/// `n.to_string()`.
pub fn u64_text(n: u64) -> (s: String)
    ensures
        s@ == dec_text(n as nat),
    decreases n,
{
    let d = ((n % 10) as u8 + 48u8) as char;
    assert(d == digit_char((n % 10) as nat));
    if n < 10 {
        let mut s = String::new();
        push_char(&mut s, d);
        assert(s@ =~= seq![d]);
        s
    } else {
        let mut s = u64_text(n / 10);
        push_char(&mut s, d);
        s
    }
}

/// `n.to_string()` for a signed integer.
pub fn i64_text(n: i64) -> (s: String)
    ensures
        s@ == int_text(n as int),
{
    if n < 0 {
        let m: u64 = if n == i64::MIN {
            9223372036854775808u64
        } else {
            (-n) as u64
        };
        let mut s = String::new();
        push_char(&mut s, '-');
        let t = u64_text(m);
        s.append(t.as_str());
        assert(s@ =~= seq!['-'] + dec_text((-(n as int)) as nat));
        s
    } else {
        u64_text(n as u64)
    }
}

/// Appends the decimal numeral of `n` to `s`.
pub fn append_int(s: &mut String, n: i64)
    ensures
        final(s)@ == old(s)@ + int_text(n as int),
{
    let t = i64_text(n);
    s.append(t.as_str());
}

/// `format!("{:0width$}", n)`.
pub fn zero_padded_text(n: u64, width: usize) -> (s: String)
    ensures
        s@ == zero_padded(n as nat, width as nat),
{
    let t = u64_text(n);
    let len = char_count(t.as_str());
    if len < width {
        let mut s = String::new();
        let mut k: usize = 0;
        while k < width - len
            invariant
                k <= width - len,
                s@ == Seq::new(k as nat, |i: int| '0'),
            decreases width - len - k,
        {
            push_char(&mut s, '0');
            assert(s@ =~= Seq::new((k + 1) as nat, |i: int| '0'));
            k += 1;
        }
        s.append(t.as_str());
        s
    } else {
        t
    }
}

proof fn lemma_dec_value_push(d: Seq<char>, c: char)
    ensures
        dec_value(d.push(c)) == dec_value(d) * 10 + digit_value(c),
{
    assert(d.push(c).drop_last() =~= d);
}

/// Parses `s` as `from_str` of an unsigned type whose largest value is `max`
/// does (`max` is `u16::MAX`, `u32::MAX` or `u64::MAX` by the caller's choice).
pub fn parse_unsigned_text(s: &str, max: u64) -> (r: Option<u64>)
    ensures
        match parse_unsigned(s@, max as nat) {
            Some(n) => r == Some(n as u64),
            None => r is None,
        },
{
    let v = chars_of(s);
    let start: usize = if v.len() > 0 && v[0] == '+' {
        1
    } else {
        0
    };
    let ghost d = if s@.len() > 0 && s@[0] == '+' {
        s@.skip(1)
    } else {
        s@
    };
    assert(d =~= v@.subrange(start as int, v.len() as int));
    let (ok, acc) = scan_digits(&v, start, max);
    if start >= v.len() || !ok {
        None
    } else {
        Some(acc)
    }
}

/// Reads the digits `v[start..]`: `(true, value)` when they are all digits
/// and their value does not exceed `max`, `(false, _)` otherwise.
fn scan_digits(v: &Vec<char>, start: usize, max: u64) -> (r: (bool, u64))
    requires
        start <= v.len(),
    ensures
        r.0 == (all_digits(v@.subrange(start as int, v.len() as int)) && dec_value(
            v@.subrange(start as int, v.len() as int),
        ) <= max),
        r.0 ==> r.1 == dec_value(v@.subrange(start as int, v.len() as int)),
{
    let mut acc: u64 = 0;
    let mut over = false;
    let mut bad = false;
    let mut i = start;
    while i < v.len()
        invariant
            start <= i <= v.len(),
            bad ==> !all_digits(v@.subrange(start as int, v.len() as int)),
            !bad ==> all_digits(v@.subrange(start as int, i as int)),
            !bad && !over ==> acc == dec_value(v@.subrange(start as int, i as int)),
            !bad && !over ==> acc <= max,
            !bad && over ==> dec_value(v@.subrange(start as int, i as int)) > max,
        decreases v.len() - i,
    {
        let c = v[i];
        if !bad {
            if !('0' <= c && c <= '9') {
                assert(v@.subrange(start as int, v.len() as int)[i - start] == c);
                bad = true;
            } else {
                let dv = ((c as u32) - ('0' as u32)) as u64;
                let ghost pre = v@.subrange(start as int, i as int);
                assert(v@.subrange(start as int, (i + 1) as int) =~= pre.push(c));
                proof {
                    lemma_dec_value_push(pre, c);
                }
                if !over {
                    if dv > max || acc > (max - dv) / 10 {
                        over = true;
                        assert(acc * 10 + dv > max) by (nonlinear_arith)
                            requires
                                dv > max || acc > (max - dv) / 10,
                                dv <= 9,
                        ;
                    } else {
                        assert(acc * 10 + dv <= max) by (nonlinear_arith)
                            requires
                                dv <= max,
                                acc <= (max - dv) / 10,
                        ;
                        acc = acc * 10 + dv;
                    }
                } else {
                    assert(dec_value(pre) * 10 + digit_value(c) >= dec_value(pre)) by (nonlinear_arith);
                }
            }
        }
        i += 1;
    }
    (!bad && !over, acc)
}

/// Appends the decimal numeral of `n` to `s`.
pub fn append_u64(s: &mut String, n: u64)
    ensures
        final(s)@ == old(s)@ + int_text(n as int),
{
    let t = u64_text(n);
    s.append(t.as_str());
}

/// The number of bytes of the UTF-8 encoding of `s` (`s.len()`).
pub fn byte_len(s: &str) -> (n: usize)
    ensures
        n == utf8_len(s@),
{
    let b = s.as_bytes();
    b.len()
}

/// The scalar value of `c`.
pub fn code_point(c: char) -> (u: u32)
    ensures
        u == c as u32,
        u as int == c as int,
        u <= 0x10FFFF,
        !(0xD800 <= u <= 0xDFFF),
{
    c as u32
}

/// Whether the UTF-8 encoding of `s` is longer than `max` bytes
/// (`s.len() > max`).
pub fn utf8_len_exceeds(s: &str, max: usize) -> (r: bool)
    ensures
        r == (utf8_len(s@) > max),
{
    let v = chars_of(s);
    let mut acc: usize = 0;
    let mut i: usize = 0;
    assert(v@.skip(0) =~= v@);
    while i < v.len()
        invariant
            v@ == s@,
            i <= v.len(),
            acc <= max,
            acc + utf8_len(v@.skip(i as int)) == utf8_len(v@),
        decreases v.len() - i,
    {
        let c = v[i];
        let u = code_point(c);
        let w: usize = if u < 0x80 {
            1
        } else if u < 0x800 {
            2
        } else if u < 0x10000 {
            3
        } else {
            4
        };
        assert(v@.skip(i as int).drop_first() =~= v@.skip((i + 1) as int));
        assert(vstd::utf8::encode_scalar(u).len() == w);
        if w > max - acc {
            return true;
        }
        acc = acc + w;
        i += 1;
    }
    assert(v@.skip(v.len() as int) =~= Seq::<char>::empty());
    false
}


// ---------- last occurrence, joining ----------

/// The last position before `end` that holds `c`, or `-1`.
pub open spec fn prev_sep(s: Seq<char>, c: char, end: int) -> int
    decreases end,
{
    if end <= 0 || end > s.len() {
        -1
    } else if s[end - 1] == c {
        end - 1
    } else {
        prev_sep(s, c, end - 1)
    }
}

pub proof fn lemma_prev_sep(s: Seq<char>, c: char, end: int)
    requires
        0 <= end <= s.len(),
    ensures
        -1 <= prev_sep(s, c, end) < end,
        prev_sep(s, c, end) >= 0 ==> s[prev_sep(s, c, end)] == c,
        forall|k: int| prev_sep(s, c, end) < k < end ==> s[k] != c,
    decreases end,
{
    if end > 0 && s[end - 1] != c {
        lemma_prev_sep(s, c, end - 1);
    }
}

/// The last position of `c` in `v`, if any (`rfind`).
pub fn prev_sep_at(v: &Vec<char>, c: char) -> (r: Option<usize>)
    ensures
        match r {
            Some(i) => i as int == prev_sep(v@, c, v@.len() as int),
            None => prev_sep(v@, c, v@.len() as int) == -1,
        },
{
    let mut e = v.len();
    while e > 0
        invariant
            e <= v.len(),
            prev_sep(v@, c, e as int) == prev_sep(v@, c, v@.len() as int),
        decreases e,
    {
        if v[e - 1] == c {
            return Some(e - 1);
        }
        e -= 1;
    }
    None
}

/// The items joined by `sep` (`items.join(sep)`).
pub open spec fn sep_joined(items: Seq<Seq<char>>, sep: Seq<char>) -> Seq<char>
    decreases items.len(),
{
    if items.len() == 0 {
        Seq::empty()
    } else if items.len() == 1 {
        items[0]
    } else {
        sep_joined(items.drop_last(), sep) + sep + items.last()
    }
}

/// The views of a list of strings.
pub open spec fn texts(v: Seq<String>) -> Seq<Seq<char>> {
    Seq::new(v.len(), |i: int| v[i]@)
}

/// `items.join(sep)`.
pub fn join_all(items: &Vec<String>, sep: &str) -> (r: String)
    ensures
        r@ == sep_joined(texts(items@), sep@),
{
    let mut r = String::new();
    let mut i: usize = 0;
    while i < items.len()
        invariant
            i <= items.len(),
            r@ == sep_joined(texts(items@).take(i as int), sep@),
        decreases items.len() - i,
    {
        let ghost before = r@;
        if i > 0 {
            r.append(sep);
        }
        r.append(items[i].as_str());
        proof {
            let t = texts(items@).take((i + 1) as int);
            assert(t.drop_last() =~= texts(items@).take(i as int));
            if i == 0 {
                assert(t =~= seq![items@[0]@]);
            }
        }
        i += 1;
    }
    assert(texts(items@).take(items.len() as int) =~= texts(items@));
    r
}

// ---------- Unicode lower case ----------

/// What `str::to_lowercase` returns for `s` (the full Unicode lower-case
/// mapping, which the contracts leave unstated).
pub uninterp spec fn unicode_lower(s: Seq<char>) -> Seq<char>;

/// `s.to_lowercase()`: the result is `unicode_lower(s)`, a function of `s`
/// alone; the mapping itself is not restated here.
#[verifier::external_body]
pub fn lowercase(s: &str) -> (r: String)
    ensures
        r@ == unicode_lower(s@),
{
    s.to_lowercase()
}

// ---------- lemmas on numerals and ASCII text ----------

pub open spec fn pow10(k: nat) -> nat
    decreases k,
{
    if k == 0 {
        1
    } else {
        10 * pow10((k - 1) as nat)
    }
}

/// A numeral is made of digits, and a number below `10^k` has at most `k`
/// of them.
pub proof fn lemma_dec_text(n: nat, k: nat)
    requires
        k >= 1,
        n < pow10(k),
    ensures
        all_digits(dec_text(n)),
        1 <= dec_text(n).len() <= k,
    decreases n,
{
    if n >= 10 {
        assert(k >= 2) by {
            if k == 1 {
                assert(pow10(1) == 10 * pow10(0));
            }
        }
        assert(n / 10 < pow10((k - 1) as nat)) by {
            assert(pow10(k) == 10 * pow10((k - 1) as nat));
        }
        lemma_dec_text(n / 10, (k - 1) as nat);
        let t = dec_text(n / 10);
        assert(dec_text(n) == t.push(digit_char(n % 10)));
        assert forall|i: int| 0 <= i < dec_text(n).len() implies is_ascii_digit(#[trigger] dec_text(n)[i]) by {
            if i < t.len() {
                assert(dec_text(n)[i] == t[i]);
            }
        }
    }
}

/// Every character of a zero-padded numeral is a digit.
pub proof fn lemma_zero_padded_digits(n: nat, width: nat)
    requires
        n < pow10(19),
    ensures
        all_digits(zero_padded(n, width)),
{
    lemma_dec_text(n, 19);
    let t = dec_text(n);
    if t.len() < width {
        let z = zero_padded(n, width);
        let pad = Seq::new((width - t.len()) as nat, |i: int| '0');
        assert forall|i: int| 0 <= i < z.len() implies is_ascii_digit(#[trigger] z[i]) by {
            if i < pad.len() {
                assert(z[i] == pad[i]);
            } else {
                assert(z[i] == t[i - pad.len()]);
            }
        }
    }
}

/// Text made of ASCII characters takes one byte per character.
pub proof fn lemma_ascii_utf8_len(s: Seq<char>)
    requires
        forall|i: int| 0 <= i < s.len() ==> ((#[trigger] s[i]) as u32) < 0x80,
    ensures
        utf8_len(s) == s.len(),
    decreases s.len(),
{
    if s.len() > 0 {
        assert((s[0] as u32) < 0x80);
        assert(vstd::utf8::encode_scalar(s[0] as u32).len() == 1);
        assert forall|i: int| 0 <= i < s.drop_first().len() implies ((#[trigger] s.drop_first()[i]) as u32) < 0x80 by {
            assert(s.drop_first()[i] == s[i + 1]);
        }
        lemma_ascii_utf8_len(s.drop_first());
    }
}

// ---------- splitting ----------

/// `s[start..].split(c)`: the pieces between separators, in order (at least
/// one, possibly empty).
pub open spec fn split_from(s: Seq<char>, c: char, start: int) -> Seq<Seq<char>>
    decreases s.len() - start,
{
    if start < 0 || start > s.len() {
        Seq::empty()
    } else {
        let e = next_sep(s, c, start);
        if e >= s.len() || e < start {
            seq![s.subrange(start, s.len() as int)]
        } else {
            seq![s.subrange(start, e)] + split_from(s, c, e + 1)
        }
    }
}

/// One step of `split_from`: the piece up to the next separator, then the rest.
pub proof fn lemma_split_step(s: Seq<char>, c: char, start: int)
    requires
        0 <= start <= s.len(),
    ensures
        next_sep(s, c, start) >= s.len() ==> split_from(s, c, start) == seq![s.subrange(start, s.len() as int)],
        next_sep(s, c, start) < s.len() ==> split_from(s, c, start) == seq![s.subrange(start, next_sep(s, c, start))]
            + split_from(s, c, next_sep(s, c, start) + 1),
{
    lemma_next_sep(s, c, start);
}

} // verus!
