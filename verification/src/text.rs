//! Character-sequence helpers shared by the parsers.
//!
//! Text is processed as sequences of `char`; byte offsets (which the AST
//! records in its `range` fields) are derived from the UTF-8 width of each
//! character.
use vstd::prelude::*;

verus! {

/// Number of bytes that `c` occupies in UTF-8.
pub open spec fn utf8_width(c: char) -> nat {
    if (c as u32) < 0x80 {
        1
    } else if (c as u32) < 0x800 {
        2
    } else if (c as u32) < 0x10000 {
        3
    } else {
        4
    }
}

/// Number of bytes that the character sequence `s` occupies in UTF-8.
pub open spec fn byte_len(s: Seq<char>) -> nat
    decreases s.len(),
{
    if s.len() == 0 {
        0
    } else {
        byte_len(s.drop_last()) + utf8_width(s.last())
    }
}

pub proof fn lemma_byte_len_concat(a: Seq<char>, b: Seq<char>)
    ensures
        byte_len(a + b) == byte_len(a) + byte_len(b),
    decreases b.len(),
{
    if b.len() == 0 {
        assert(a + b =~= a);
    } else {
        lemma_byte_len_concat(a, b.drop_last());
        assert((a + b).drop_last() =~= a + b.drop_last());
    }
}

pub proof fn lemma_byte_len_push(a: Seq<char>, c: char)
    ensures
        byte_len(a.push(c)) == byte_len(a) + utf8_width(c),
{
    assert(a.push(c).drop_last() =~= a);
}

pub proof fn lemma_byte_len_bounds(s: Seq<char>)
    ensures
        s.len() <= byte_len(s) <= 4 * s.len(),
    decreases s.len(),
{
    if s.len() > 0 {
        lemma_byte_len_bounds(s.drop_last());
    }
}

/// The length of `s` in bytes (`str::len`), which is the length of its
/// UTF-8 encoding.
#[verifier::external_body]
pub(crate) fn str_byte_len(s: &str) -> (n: usize)
    ensures
        n == byte_len(s@),
{
    s.len()
}

/// The UTF-8 width of a character.
pub fn char_width(c: char) -> (w: usize)
    ensures
        w == utf8_width(c),
        1 <= w <= 4,
{
    let u = c as u32;
    if u < 0x80 {
        1
    } else if u < 0x800 {
        2
    } else if u < 0x10000 {
        3
    } else {
        4
    }
}

/// The characters of `s`, in order.
pub fn str_chars(s: &str) -> (r: Vec<char>)
    ensures
        r@ == s@,
{
    broadcast use vstd::string::axiom_spec_iter;

    let mut r: Vec<char> = Vec::new();
    for c in it: s.chars()
        invariant
            it.seq() == s@,
            r@ == it.seq().subrange(0, it.index() as int),
    {
        r.push(c);
    }
    r
}

/// Appends `c` to `s` (`String::push`).
#[verifier::external_body]
pub(crate) fn push_char(s: &mut String, c: char)
    ensures
        final(s)@ == old(s)@.push(c),
{
    s.push(c)
}

/// A `String` holding exactly the characters `v`.
pub fn string_from_chars(v: &[char]) -> (r: String)
    ensures
        r@ == v@,
{
    let mut r = String::new();
    let mut i: usize = 0;
    while i < v.len()
        invariant
            i <= v.len(),
            r@ == v@.subrange(0, i as int),
        decreases v.len() - i,
    {
        push_char(&mut r, v[i]);
        assert(r@ =~= v@.subrange(0, i + 1));
        i = i + 1;
    }
    assert(v@.subrange(0, v@.len() as int) =~= v@);
    r
}

/// An owned copy of the string slice `s`.
pub fn own(s: &str) -> (r: String)
    ensures
        r@ == s@,
{
    s.to_owned()
}

/// Whether two string slices hold the same characters.
pub(crate) fn str_eq(a: &str, b: &str) -> (r: bool)
    ensures
        r == (a@ == b@),
{
    let x = str_chars(a);
    let y = str_chars(b);
    chars_eq(x.as_slice(), y.as_slice())
}

/// Whether two character sequences are equal.
pub fn chars_eq(a: &[char], b: &[char]) -> (r: bool)
    ensures
        r == (a@ == b@),
{
    if a.len() != b.len() {
        return false;
    }
    let mut i: usize = 0;
    while i < a.len()
        invariant
            a.len() == b.len(),
            i <= a.len(),
            forall|j: int| 0 <= j < i ==> a@[j] == b@[j],
        decreases a.len() - i,
    {
        if a[i] != b[i] {
            return false;
        }
        i = i + 1;
    }
    assert(a@ =~= b@);
    true
}

/// Whether `s[at..]` starts with `p`.
pub open spec fn seq_has_at(s: Seq<char>, at: int, p: Seq<char>) -> bool {
    0 <= at && at + p.len() <= s.len() && s.subrange(at, at + p.len()) == p
}

/// Whether the characters of `s` starting at index `at` spell out `p`.
pub fn has_at(s: &[char], at: usize, p: &[char]) -> (r: bool)
    ensures
        r == seq_has_at(s@, at as int, p@),
{
    if at > s.len() || p.len() > s.len() - at {
        return false;
    }
    let mut i: usize = 0;
    while i < p.len()
        invariant
            at + p.len() <= s.len(),
            i <= p.len(),
            forall|j: int| 0 <= j < i ==> s@[at + j] == p@[j],
        decreases p.len() - i,
    {
        if s[at + i] != p[i] {
            assert(s@.subrange(at as int, at + p.len())[i as int] != p@[i as int]);
            return false;
        }
        i = i + 1;
    }
    assert(s@.subrange(at as int, at + p.len()) =~= p@);
    true
}

/// Whether `c` is a whitespace character (the Unicode `White_Space` property).
pub open spec fn is_ws(c: char) -> bool {
    c == ' ' || c == '\t' || c == '\n' || c == '\x0B' || c == '\x0C' || c == '\r'
        || c == '\u{85}' || c == '\u{A0}' || c == '\u{1680}'
        || ('\u{2000}' <= c && c <= '\u{200A}') || c == '\u{2028}' || c == '\u{2029}'
        || c == '\u{202F}' || c == '\u{205F}' || c == '\u{3000}'
}

pub fn is_whitespace(c: char) -> (r: bool)
    ensures
        r == is_ws(c),
{
    c == ' ' || c == '\t' || c == '\n' || c == '\x0B' || c == '\x0C' || c == '\r'
        || c == '\u{85}' || c == '\u{A0}' || c == '\u{1680}'
        || ('\u{2000}' <= c && c <= '\u{200A}') || c == '\u{2028}' || c == '\u{2029}'
        || c == '\u{202F}' || c == '\u{205F}' || c == '\u{3000}'
}

/// Index of the first non-whitespace character of `s` (or `s.len()`).
pub open spec fn ws_prefix_len(s: Seq<char>) -> nat
    decreases s.len(),
{
    if s.len() == 0 || !is_ws(s[0]) {
        0
    } else {
        1 + ws_prefix_len(s.drop_first())
    }
}

/// Length of `s` once trailing whitespace is removed.
pub open spec fn trimmed_end_len(s: Seq<char>) -> nat
    decreases s.len(),
{
    if s.len() == 0 || !is_ws(s.last()) {
        s.len()
    } else {
        trimmed_end_len(s.drop_last())
    }
}

/// `s` without trailing whitespace (`str::trim_end`).
pub open spec fn trim_end(s: Seq<char>) -> Seq<char> {
    s.subrange(0, trimmed_end_len(s) as int)
}

/// `s` without leading whitespace (`str::trim_start`).
pub open spec fn trim_start(s: Seq<char>) -> Seq<char> {
    s.subrange(ws_prefix_len(s) as int, s.len() as int)
}

/// `s` without leading and trailing whitespace (`str::trim`).
pub open spec fn trim(s: Seq<char>) -> Seq<char> {
    trim_start(trim_end(s))
}

pub proof fn lemma_trimmed_end_len(s: Seq<char>)
    ensures
        trimmed_end_len(s) <= s.len(),
        forall|j: int| trimmed_end_len(s) <= j < s.len() ==> is_ws(#[trigger] s[j]),
        trimmed_end_len(s) > 0 ==> !is_ws(s[trimmed_end_len(s) - 1]),
    decreases s.len(),
{
    if s.len() > 0 && is_ws(s.last()) {
        lemma_trimmed_end_len(s.drop_last());
        assert forall|j: int| trimmed_end_len(s) <= j < s.len() implies is_ws(#[trigger] s[j]) by {
            if j < s.len() - 1 {
                assert(s[j] == s.drop_last()[j]);
            }
        }
    }
}

pub proof fn lemma_ws_prefix_len(s: Seq<char>)
    ensures
        ws_prefix_len(s) <= s.len(),
        forall|j: int| 0 <= j < ws_prefix_len(s) ==> is_ws(#[trigger] s[j]),
        ws_prefix_len(s) < s.len() ==> !is_ws(s[ws_prefix_len(s) as int]),
    decreases s.len(),
{
    if s.len() > 0 && is_ws(s[0]) {
        lemma_ws_prefix_len(s.drop_first());
        assert forall|j: int| 0 <= j < ws_prefix_len(s) implies is_ws(#[trigger] s[j]) by {
            if j > 0 {
                assert(s[j] == s.drop_first()[j - 1]);
            }
        }
    }
}

/// Length of `s[..n]` once trailing whitespace is removed.
pub fn trim_end_len(s: &[char], n: usize) -> (r: usize)
    requires
        n <= s.len(),
    ensures
        r == trimmed_end_len(s@.subrange(0, n as int)),
        r <= n,
{
    let mut k = n;
    while k > 0 && is_whitespace(s[k - 1])
        invariant
            k <= n <= s.len(),
            trimmed_end_len(s@.subrange(0, n as int)) == trimmed_end_len(s@.subrange(0, k as int)),
        decreases k,
    {
        assert(s@.subrange(0, k as int).drop_last() =~= s@.subrange(0, k - 1));
        k = k - 1;
    }
    proof {
        lemma_trimmed_end_len(s@.subrange(0, k as int));
    }
    k
}

/// Index of the first non-whitespace character of `s[from..to]`, counted from `from`.
pub fn skip_ws(s: &[char], from: usize, to: usize) -> (r: usize)
    requires
        from <= to <= s.len(),
    ensures
        r == from + ws_prefix_len(s@.subrange(from as int, to as int)),
        r <= to,
{
    let mut k = from;
    while k < to && is_whitespace(s[k])
        invariant
            from <= k <= to <= s.len(),
            ws_prefix_len(s@.subrange(from as int, to as int)) == (k - from) + ws_prefix_len(
                s@.subrange(k as int, to as int),
            ),
        decreases to - k,
    {
        assert(s@.subrange(k as int, to as int).drop_first() =~= s@.subrange(k + 1, to as int));
        k = k + 1;
    }
    proof {
        lemma_ws_prefix_len(s@.subrange(k as int, to as int));
    }
    k
}

/// The bounds of `s[from..to]` once leading and trailing whitespace is removed.
pub fn trim_range(s: &[char], from: usize, to: usize) -> (r: (usize, usize))
    requires
        from <= to <= s.len(),
    ensures
        from <= r.0 <= r.1 <= to,
        s@.subrange(r.0 as int, r.1 as int) == trim(s@.subrange(from as int, to as int)),
{
    let mut k = to;
    while k > from && is_whitespace(s[k - 1])
        invariant
            from <= k <= to <= s.len(),
            trimmed_end_len(s@.subrange(from as int, to as int)) == trimmed_end_len(
                s@.subrange(from as int, k as int),
            ),
        decreases k,
    {
        assert(s@.subrange(from as int, k as int).drop_last() =~= s@.subrange(from as int, k - 1));
        k = k - 1;
    }
    assert(trim_end(s@.subrange(from as int, to as int)) =~= s@.subrange(from as int, k as int));
    let a = skip_ws(s, from, k);
    assert(trim_start(s@.subrange(from as int, k as int)) =~= s@.subrange(a as int, k as int));
    (a, k)
}

/// `s[from..to]`, copied.
pub fn slice_vec(s: &[char], from: usize, to: usize) -> (r: Vec<char>)
    requires
        from <= to <= s.len(),
    ensures
        r@ == s@.subrange(from as int, to as int),
{
    let mut r: Vec<char> = Vec::new();
    let mut i = from;
    while i < to
        invariant
            from <= i <= to <= s.len(),
            r@ == s@.subrange(from as int, i as int),
        decreases to - i,
    {
        r.push(s[i]);
        assert(r@ =~= s@.subrange(from as int, i + 1));
        i = i + 1;
    }
    r
}

/// A `String` holding `s[from..to]`.
pub fn string_of_range(s: &[char], from: usize, to: usize) -> (r: String)
    requires
        from <= to <= s.len(),
    ensures
        r@ == s@.subrange(from as int, to as int),
{
    let v = slice_vec(s, from, to);
    string_from_chars(&v)
}

/// Index of the first occurrence of `c` in `s[from..]`, if any.
pub open spec fn find_char_from(s: Seq<char>, from: int, c: char) -> Option<int>
    decreases s.len() - from,
{
    if from < 0 || from >= s.len() {
        None
    } else if s[from] == c {
        Some(from)
    } else {
        find_char_from(s, from + 1, c)
    }
}

pub proof fn lemma_find_char_from(s: Seq<char>, from: int, c: char)
    requires
        0 <= from,
    ensures
        find_char_from(s, from, c) matches Some(k) ==> from <= k < s.len() && s[k] == c && forall|
            j: int,
        | from <= j < k ==> s[j] != c,
        find_char_from(s, from, c) is None ==> forall|j: int| from <= j < s.len() ==> s[j] != c,
    decreases s.len() - from,
{
    if from < s.len() && s[from] != c {
        lemma_find_char_from(s, from + 1, c);
    }
}

/// Index of the first occurrence of `c` in `s[from..]`, if any.
pub fn find_char(s: &[char], from: usize, c: char) -> (r: Option<usize>)
    requires
        from <= s.len(),
    ensures
        r matches Some(k) ==> find_char_from(s@, from as int, c) == Some(k as int) && from <= k
            < s.len() && s@[k as int] == c,
        r is None ==> find_char_from(s@, from as int, c) is None,
{
    proof {
        lemma_find_char_from(s@, from as int, c);
    }
    let mut i = from;
    while i < s.len()
        invariant
            from <= i <= s.len(),
            find_char_from(s@, from as int, c) == find_char_from(s@, i as int, c),
        decreases s.len() - i,
    {
        if s[i] == c {
            return Some(i);
        }
        i = i + 1;
    }
    None
}

/// The decimal digits of `n`.
pub open spec fn decimal(n: nat) -> Seq<char>
    decreases n,
{
    if n < 10 {
        seq![digit_char(n)]
    } else {
        decimal(n / 10).push(digit_char(n % 10))
    }
}

pub open spec fn digit_char(d: nat) -> char {
    if d == 0 { '0' } else if d == 1 { '1' } else if d == 2 { '2' } else if d == 3 { '3' }
    else if d == 4 { '4' } else if d == 5 { '5' } else if d == 6 { '6' } else if d == 7 { '7' }
    else if d == 8 { '8' } else { '9' }
}

fn digit(d: u64) -> (c: char)
    requires
        d < 10,
    ensures
        c == digit_char(d as nat),
{
    if d == 0 { '0' } else if d == 1 { '1' } else if d == 2 { '2' } else if d == 3 { '3' }
    else if d == 4 { '4' } else if d == 5 { '5' } else if d == 6 { '6' } else if d == 7 { '7' }
    else if d == 8 { '8' } else { '9' }
}

/// The decimal representation of `n`.
pub fn decimal_string(n: u64) -> (r: String)
    ensures
        r@ == decimal(n as nat),
{
    let v = decimal_chars(n);
    string_from_chars(&v)
}

fn decimal_chars(n: u64) -> (r: Vec<char>)
    ensures
        r@ == decimal(n as nat),
    decreases n,
{
    if n < 10 {
        let mut v = Vec::new();
        v.push(digit(n));
        assert(v@ =~= seq![digit_char(n as nat)]);
        v
    } else {
        let mut v = decimal_chars(n / 10);
        v.push(digit(n % 10));
        v
    }
}

} // verus!
