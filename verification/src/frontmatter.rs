//! A YAML subset for frontmatter: `key: value` maps, `- item` block lists,
//! `[a, b]` flow lists, nested blocks by indentation, and scalars (booleans,
//! quoted strings, integers, floats, plain strings).
use vstd::prelude::*;
use crate::CompileError;
use crate::ast_spec::digits_value;
use crate::ast::{lemma_digits_monotone, lemma_digits_prefix};
use crate::event_filter::{line_end, line_end_at};
use crate::prepass::{lemma_run_len, run_len, run_len_at};
use crate::json_value::{
    group_json_view, lemma_view_items_push, members_insert, push_item, obj_insert, view_items, view_members, Json, JsonV};
use crate::text::{
    chars_eq, decimal, decimal_string, find_char, own, push_char, find_char_from, lemma_find_char_from, slice_vec, str_chars,
    string_from_chars, string_of_range, trim, trim_range, is_ws, trimmed_end_len, ws_prefix_len};

verus! {

pub open spec fn is_digit(c: char) -> bool {
    '0' <= c && c <= '9'
}

/// Whether `s` is made of decimal digits only.
pub open spec fn all_digits(s: Seq<char>) -> bool {
    forall|i: int| 0 <= i < s.len() ==> is_digit(#[trigger] s[i])
}

/// The value of `s` as an `i64` (`str::parse::<i64>`): an optional sign and
/// at least one digit, within the range of `i64`.
pub open spec fn i64_value(s: Seq<char>) -> Option<int> {
    let signed = s.len() > 0 && (s[0] == '+' || s[0] == '-');
    let d = if signed {
        s.drop_first()
    } else {
        s
    };
    if d.len() > 0 && all_digits(d) {
        let v: int = if signed && s[0] == '-' {
            -(digits_value(d) as int)
        } else {
            digits_value(d) as int
        };
        if i64::MIN <= v <= i64::MAX {
            Some(v)
        } else {
            None
        }
    } else {
        None
    }
}

/// The JSON text of the integer `v`.
pub open spec fn int_text(v: int) -> Seq<char> {
    if v < 0 {
        seq!['-'] + decimal((-v) as nat)
    } else {
        decimal(v as nat)
    }
}

/// The number of digits of `s` from `i` on.
pub open spec fn digit_run(s: Seq<char>, i: int) -> nat
    decreases s.len() - i,
{
    if 0 <= i < s.len() && is_digit(s[i]) {
        1 + digit_run(s, i + 1)
    } else {
        0
    }
}

/// Whether `c` is the lower-case ASCII letter `l` in either case.
pub open spec fn ci_char(c: char, l: char) -> bool {
    c == l || ('a' <= l && l <= 'z' && (c as u32) + 32 == (l as u32))
}

/// Whether `s` spells the lower-case word `w`, ignoring ASCII case.
pub open spec fn ci_eq(s: Seq<char>, w: Seq<char>) -> bool {
    s.len() == w.len() && forall|i: int| 0 <= i < s.len() ==> ci_char(#[trigger] s[i], w[i])
}

/// Whether `e` is an exponent's digits with an optional sign.
pub open spec fn exponent_ok(e: Seq<char>) -> bool {
    let b: int = if e.len() > 0 && (e[0] == '+' || e[0] == '-') {
        1
    } else {
        0
    };
    e.len() > b && digit_run(e, b) == e.len() - b
}

/// Whether `r` is a decimal number: digits with an optional fraction (at
/// least one digit in all), then an optional exponent.
pub open spec fn decimal_number(r: Seq<char>) -> bool {
    let d1: int = digit_run(r, 0) as int;
    let has_dot = d1 < r.len() && r[d1] == '.';
    let d2: int = if has_dot {
        digit_run(r, d1 + 1) as int
    } else {
        0
    };
    let m: int = if has_dot {
        d1 + 1 + d2
    } else {
        d1
    };
    d1 + d2 > 0 && (m == r.len() || (m < r.len() && (r[m] == 'e' || r[m] == 'E') && exponent_ok(
        r.subrange(m + 1, r.len() as int),
    )))
}

/// Whether `s` is a floating-point literal (`str::parse::<f64>` succeeds):
/// an optional sign, then `inf`, `infinity`, `nan` (in any case) or a
/// decimal number.
pub open spec fn float_text(s: Seq<char>) -> bool {
    let b: int = if s.len() > 0 && (s[0] == '+' || s[0] == '-') {
        1
    } else {
        0
    };
    let r = s.subrange(b, s.len() as int);
    ci_eq(r, "inf"@) || ci_eq(r, "infinity"@) || ci_eq(r, "nan"@) || decimal_number(r)
}

/// The pieces of `s[i..]` between commas (`str::split(',')`).
pub open spec fn split_from(s: Seq<char>, i: int) -> Seq<Seq<char>>
    decreases s.len() - i + 1,
{
    if i < 0 || i > s.len() {
        Seq::empty()
    } else {
        match find_char_from(s, i, ',') {
            Some(k) => if i <= k < s.len() {
                seq![s.subrange(i, k)] + split_from(s, k + 1)
            } else {
                seq![s.subrange(i, s.len() as int)]
            },
            None => seq![s.subrange(i, s.len() as int)],
        }
    }
}

/// The value of a YAML scalar, or `None` where it cannot be read (a lone
/// quote character, which would open and close a quoted string at once).
pub open spec fn scalar_spec(s: Seq<char>) -> Option<JsonV>
    decreases s.len(), 0nat,
{
    if s == "true"@ {
        Some(JsonV::Bool(true))
    } else if s == "false"@ {
        Some(JsonV::Bool(false))
    } else if s.len() > 0 && s[0] == '[' && s[s.len() - 1] == ']' {
        if s.len() >= 2 {
            match items_from(split_from(s.subrange(1, s.len() - 1), 0), (s.len() - 1) as nat) {
                Some(items) => Some(JsonV::Array(items)),
                None => None,
            }
        } else {
            None
        }
    } else if s.len() > 0 && ((s[0] == '"' && s[s.len() - 1] == '"') || (s[0] == '\'' && s[s.len()
        - 1] == '\'')) {
        if s.len() >= 2 {
            Some(JsonV::Str(s.subrange(1, s.len() - 1)))
        } else {
            None
        }
    } else {
        match i64_value(s) {
            Some(v) => Some(JsonV::Number(int_text(v))),
            None => if float_text(s) {
                Some(JsonV::Float(s))
            } else {
                Some(JsonV::Str(s))
            },
        }
    }
}

/// The values of the flow-list items `ps` (each trimmed), each shorter
/// than `bound`; `None` where one of them cannot be read.
pub open spec fn items_from(ps: Seq<Seq<char>>, bound: nat) -> Option<Seq<JsonV>>
    decreases bound, ps.len(),
{
    if ps.len() == 0 {
        Some(Seq::empty())
    } else {
        let p = trim(ps[0]);
        if p.len() < bound {
            match scalar_spec(p) {
                Some(v) => match items_from(ps.drop_first(), bound) {
                    Some(rest) => Some(seq![v] + rest),
                    None => None,
                },
                None => None,
            }
        } else {
            None
        }
    }
}

pub proof fn lemma_digit_run(s: Seq<char>, i: int)
    requires
        0 <= i <= s.len(),
    ensures
        i + digit_run(s, i) <= s.len(),
        forall|j: int| i <= j < i + digit_run(s, i) ==> is_digit(#[trigger] s[j]),
        i + digit_run(s, i) < s.len() ==> !is_digit(s[i + digit_run(s, i)]),
    decreases s.len() - i,
{
    if i < s.len() && is_digit(s[i]) {
        lemma_digit_run(s, i + 1);
    }
}

/// Counting digits in a suffix is counting them in the whole from its start.
pub proof fn lemma_digit_run_shift(s: Seq<char>, a: int, j: int)
    requires
        0 <= a <= s.len(),
        0 <= j,
    ensures
        digit_run(s.subrange(a, s.len() as int), j) == digit_run(s, a + j),
    decreases s.len() - a - j,
{
    if a + j < s.len() {
        lemma_digit_run_shift(s, a, j + 1);
    }
}

/// `i` plus the number of digits of `s` from `i` on.
fn digits_end(s: &[char], i: usize) -> (r: usize)
    requires
        i <= s.len(),
    ensures
        r == i + digit_run(s@, i as int),
        r <= s.len(),
{
    let mut k = i;
    while k < s.len() && s[k] >= '0' && s[k] <= '9'
        invariant
            i <= k <= s.len(),
            digit_run(s@, i as int) == (k - i) + digit_run(s@, k as int),
        decreases s.len() - k,
    {
        k = k + 1;
    }
    proof {
        lemma_digit_run(s@, k as int);
    }
    k
}

/// Whether `s[from..]` spells `w` (lower case) in any ASCII case.
fn ci_eq_at(s: &[char], from: usize, w: &[char]) -> (r: bool)
    requires
        from <= s.len(),
    ensures
        r == ci_eq(s@.subrange(from as int, s@.len() as int), w@),
{
    let ghost x = s@.subrange(from as int, s@.len() as int);
    if s.len() - from != w.len() {
        return false;
    }
    let mut i: usize = 0;
    while i < w.len()
        invariant
            i <= w.len(),
            w.len() == s.len() - from,
            from <= s.len(),
            x == s@.subrange(from as int, s@.len() as int),
            forall|j: int| 0 <= j < i ==> ci_char(#[trigger] x[j], w@[j]),
        decreases w.len() - i,
    {
        let c = s[from + i];
        let l = w[i];
        if !(c == l || ('a' <= l && l <= 'z' && (c as u32) == (l as u32) - 32)) {
            assert(!ci_char(x[i as int], w@[i as int]));
            return false;
        }
        i = i + 1;
    }
    true
}

/// Whether `s[from..]` is an exponent's digits with an optional sign.
fn exponent_ok_at(s: &[char], from: usize) -> (r: bool)
    requires
        from <= s.len(),
    ensures
        r == exponent_ok(s@.subrange(from as int, s@.len() as int)),
{
    let ghost e = s@.subrange(from as int, s@.len() as int);
    let b: usize = if from < s.len() && (s[from] == '+' || s[from] == '-') {
        1
    } else {
        0
    };
    if s.len() - from <= b {
        return false;
    }
    let k = digits_end(s, from + b);
    proof {
        lemma_digit_run_shift(s@, from as int, b as int);
    }
    k == s.len()
}

/// Whether `s[b..]` is a decimal number.
fn decimal_number_at(s: &[char], b: usize) -> (r: bool)
    requires
        b <= s.len(),
    ensures
        r == decimal_number(s@.subrange(b as int, s@.len() as int)),
{
    let ghost x = s@.subrange(b as int, s@.len() as int);
    let e1 = digits_end(s, b);
    proof {
        lemma_digit_run_shift(s@, b as int, 0);
    }
    let d1 = e1 - b;
    let has_dot = e1 < s.len() && s[e1] == '.';
    let m: usize;
    let d2: usize;
    if has_dot {
        let e2 = digits_end(s, e1 + 1);
        proof {
            lemma_digit_run_shift(s@, b as int, d1 + 1);
        }
        d2 = e2 - e1 - 1;
        m = e2;
    } else {
        d2 = 0;
        m = e1;
    }
    if d1 + d2 == 0 {
        return false;
    }
    if m == s.len() {
        return true;
    }
    if s[m] == 'e' || s[m] == 'E' {
        let r = exponent_ok_at(s, m + 1);
        proof {
            assert(x.subrange(m - b + 1, x.len() as int) =~= s@.subrange(m + 1, s@.len() as int));
        }
        r
    } else {
        false
    }
}

/// Whether `s` is a floating-point literal.
fn float_text_exec(s: &[char]) -> (r: bool)
    ensures
        r == float_text(s@),
{
    let b: usize = if s.len() > 0 && (s[0] == '+' || s[0] == '-') {
        1
    } else {
        0
    };
    proof {
        reveal_strlit("inf");
        reveal_strlit("infinity");
        reveal_strlit("nan");
    }
    let inf = str_chars("inf");
    let infinity = str_chars("infinity");
    let nan = str_chars("nan");
    ci_eq_at(s, b, &inf) || ci_eq_at(s, b, &infinity) || ci_eq_at(s, b, &nan) || decimal_number_at(
        s,
        b,
    )
}

/// The JSON text of `s` read as an `i64`, if it is one.
fn int_text_exec(s: &[char]) -> (r: Option<String>)
    ensures
        match i64_value(s@) {
            Some(v) => r matches Some(t) && t@ == int_text(v),
            None => r is None,
        },
{
    let signed = s.len() > 0 && (s[0] == '+' || s[0] == '-');
    let neg = signed && s[0] == '-';
    let ds: usize = if signed {
        1
    } else {
        0
    };
    let ghost d = s@.subrange(ds as int, s@.len() as int);
    assert(d =~= if signed {
        s@.drop_first()
    } else {
        s@
    });
    if ds == s.len() {
        return None;
    }
    let mut mag: u64 = 0;
    let mut i = ds;
    while i < s.len()
        invariant
            ds <= i <= s.len(),
            d == s@.subrange(ds as int, s@.len() as int),
            signed == (s@.len() > 0 && (s@[0] == '+' || s@[0] == '-')),
            ds == (if signed {
                1usize
            } else {
                0usize
            }),
            neg == (signed && s@[0] == '-'),
            d == (if signed {
                s@.drop_first()
            } else {
                s@
            }),
            forall|j: int| ds <= j < i ==> is_digit(#[trigger] s@[j]),
            mag == digits_value(d.subrange(0, i - ds)),
            mag <= 9223372036854775808u64,
        decreases s.len() - i,
    {
        let c = s[i];
        assert(d[i - ds] == c);
        if !(c >= '0' && c <= '9') {
            assert(!is_digit(d[i - ds]));
            assert(!all_digits(d));
            return None;
        }
        let dv = ((c as u32) - ('0' as u32)) as u64;
        proof {
            lemma_digits_prefix(d, i - ds);
        }
        if mag > 922337203685477580u64 || (mag == 922337203685477580u64 && dv > 8) {
            proof {
                if all_digits(d) {
                    lemma_digits_monotone(d, i - ds + 1);
                    assert(digits_value(d.subrange(0, i - ds + 1)) > 9223372036854775808);
                    assert(digits_value(d) > 9223372036854775808);
                }
            }
            return None;
        }
        mag = mag * 10 + dv;
        i = i + 1;
    }
    assert(d.subrange(0, d.len() as int) =~= d);
    if !neg && mag > 9223372036854775807u64 {
        return None;
    }
    let digits = decimal_string(mag);
    if neg && mag > 0 {
        let mut t = String::new();
        push_char(&mut t, '-');
        t.append(digits.as_str());
        assert(t@ =~= seq!['-'] + decimal(mag as nat));
        Some(t)
    } else {
        Some(digits)
    }
}

/// The value of the YAML scalar `s` (already trimmed); `None` where it
/// cannot be read.
fn parse_scalar(s: &[char]) -> (r: Option<Json>)
    ensures
        scalar_spec(s@) == opt_json(r),
    decreases s@.len(), 1nat,
{
    proof {
        reveal_strlit("true");
        reveal_strlit("false");
    }
    let t = str_chars("true");
    let f = str_chars("false");
    if chars_eq(s, &t) {
        return Some(Json::Bool(true));
    }
    if chars_eq(s, &f) {
        return Some(Json::Bool(false));
    }
    let n = s.len();
    if n > 0 && s[0] == '[' && s[n - 1] == ']' {
        let inner = slice_vec(s, 1, n - 1);
        return match parse_flow_items(&inner, n - 1) {
            Some(items) => Some(Json::Array(items)),
            None => None,
        };
    }
    if n > 0 && ((s[0] == '"' && s[n - 1] == '"') || (s[0] == '\'' && s[n - 1] == '\'')) {
        if n < 2 {
            return None;
        }
        return Some(Json::Str(string_of_range(s, 1, n - 1)));
    }
    match int_text_exec(s) {
        Some(text) => Some(Json::Number(text)),
        None => if float_text_exec(s) {
            Some(Json::Float(string_from_chars(s)))
        } else {
            Some(Json::Str(string_from_chars(s)))
        },
    }
}

/// The values of the comma-separated items of a flow list's inside; `None`
/// where one of them cannot be read.
fn parse_flow_items(inner: &Vec<char>, bound: usize) -> (r: Option<Vec<Json>>)
    ensures
        match r {
            Some(v) => items_from(split_from(inner@, 0), bound as nat) == Some(view_items(v@)),
            None => items_from(split_from(inner@, 0), bound as nat) is None,
        },
    decreases bound, 0nat,
{
    broadcast use group_json_view;

    let ghost all = items_from(split_from(inner@, 0), bound as nat);
    let mut acc: Vec<Json> = Vec::new();
    let mut start: usize = 0;
    assert(view_items(acc@) =~= Seq::empty());
    loop
        invariant_except_break
            start <= inner.len(),
            all == items_from(split_from(inner@, 0), bound as nat),
            all == match items_from(split_from(inner@, start as int), bound as nat) {
                Some(rest) => Some(view_items(acc@) + rest),
                None => None::<Seq<JsonV>>,
            },
        ensures
            all == Some(view_items(acc@)),
        decreases inner.len() - start,
    {
        let ghost rest = split_from(inner@, start as int);
        let found = find_char(inner.as_slice(), start, ',');
        let end = match found {
            Some(k) => k,
            None => inner.len(),
        };
        proof {
            lemma_find_char_from(inner@, start as int, ',');
        }
        assert(rest[0] == inner@.subrange(start as int, end as int));
        let (a, b) = trim_range(inner.as_slice(), start, end);
        if b - a >= bound {
            assert(items_from(rest, bound as nat) is None);
            return None;
        }
        let piece = slice_vec(inner.as_slice(), a, b);
        assert(piece@ == trim(rest[0]));
        let v = match parse_scalar(&piece) {
            Some(v) => v,
            None => {
                assert(items_from(rest, bound as nat) is None);
                return None;
            },
        };
        let ghost acc0 = view_items(acc@);
        let ghost old_acc = acc@;
        let ghost vv = v;
        acc.push(v);
        proof {
            lemma_view_items_push(old_acc, vv);
            assert(acc@ == old_acc.push(vv));
        }
        assert(view_items(acc@) == acc0.push(vv@));
        match found {
            Some(k) => {
                assert(rest.drop_first() =~= split_from(inner@, k + 1));
                proof {
                    match items_from(split_from(inner@, k + 1), bound as nat) {
                        Some(r2) => {
                            assert(acc0 + (seq![vv@] + r2) =~= view_items(acc@) + r2);
                        },
                        None => {},
                    }
                }
                start = k + 1;
            },
            None => {
                assert(rest.drop_first() =~= Seq::<Seq<char>>::empty());
                assert(items_from(rest.drop_first(), bound as nat) == Some(Seq::<JsonV>::empty()));
                assert(seq![vv@] + Seq::<JsonV>::empty() =~= seq![vv@]);
                assert(items_from(rest, bound as nat) == Some(seq![vv@]));
                assert(acc0 + seq![vv@] =~= view_items(acc@));
                break;
            },
        }
    }
    Some(acc)
}

/// The lines of `t[i..]` (`str::lines`): split at `\n`, with a `\r` just
/// before the `\n` removed.
pub open spec fn lines_from(t: Seq<char>, i: int) -> Seq<Seq<char>>
    decreases t.len() - i,
{
    if i < 0 || i >= t.len() {
        Seq::empty()
    } else {
        let e = line_end(t, i);
        if e <= i || e > t.len() {
            Seq::empty()
        } else {
            let raw = t.subrange(i, e);
            let nl = raw[raw.len() - 1] == '\n';
            let body = if nl {
                raw.drop_last()
            } else {
                raw
            };
            let line = if nl && body.len() > 0 && body[body.len() - 1] == '\r' {
                body.drop_last()
            } else {
                body
            };
            seq![line] + lines_from(t, e)
        }
    }
}

/// A `key: value` line split at its first colon, when that colon ends the
/// line or is followed by a space; both sides trimmed.
pub open spec fn key_val_spec(s: Seq<char>) -> Option<(Seq<char>, Seq<char>)> {
    match find_char_from(s, 0, ':') {
        Some(c) => if c == s.len() - 1 || (c + 1 < s.len() && s[c + 1] == ' ') {
            Some((trim(s.subrange(0, c)), trim(s.subrange(c + 1, s.len() as int))))
        } else {
            None
        },
        None => None,
    }
}

/// What reading a block gives: the block's value (`None` for a line that
/// is neither a list item nor a `key: value` pair) and the index of the
/// first line after it; or a scalar that cannot be read.
pub enum BlockV {
    Done(Option<JsonV>, int),
    BadScalar,
}

/// The value of a block once its lines are read.
pub open spec fn block_value(
    map: Seq<(Seq<char>, JsonV)>,
    list: Seq<JsonV>,
    is_list: bool,
) -> JsonV {
    if is_list {
        JsonV::Array(list)
    } else {
        JsonV::Object(map)
    }
}

/// Whether `t` starts with `- `.
pub open spec fn is_item(t: Seq<char>) -> bool {
    t.len() >= 2 && t[0] == '-' && t[1] == ' '
}

/// Reads the block with indent `ind` from line `i` of `lines`, given the
/// members and items read so far.
pub open spec fn block_from(
    lines: Seq<Seq<char>>,
    i: int,
    ind: nat,
    map: Seq<(Seq<char>, JsonV)>,
    list: Seq<JsonV>,
    is_list: bool,
) -> BlockV
    decreases lines.len() - i,
{
    if i < 0 || i >= lines.len() {
        BlockV::Done(Some(block_value(map, list, is_list)), i)
    } else {
        let line = lines[i];
        let t = trim(line);
        if t.len() == 0 {
            block_from(lines, i + 1, ind, map, list, is_list)
        } else if run_len(line, ' ') != ind {
            BlockV::Done(Some(block_value(map, list, is_list)), i)
        } else {
            let nested = i + 1 < lines.len() && run_len(lines[i + 1], ' ') > ind;
            if is_item(t) {
                let v = trim(t.subrange(2, t.len() as int));
                if v.len() == 0 {
                    if i + 1 < lines.len() {
                        if nested {
                            match block_from(
                                lines,
                                i + 1,
                                run_len(lines[i + 1], ' '),
                                Seq::empty(),
                                Seq::empty(),
                                false,
                            ) {
                                BlockV::Done(r, j) => if i < j <= lines.len() {
                                    block_from(
                                        lines,
                                        j,
                                        ind,
                                        map,
                                        match r {
                                            Some(x) => list.push(x),
                                            None => list,
                                        },
                                        true,
                                    )
                                } else {
                                    BlockV::BadScalar
                                },
                                BlockV::BadScalar => BlockV::BadScalar,
                            }
                        } else {
                            block_from(lines, i + 1, ind, map, list.push(JsonV::Null), true)
                        }
                    } else {
                        block_from(lines, i + 1, ind, map, list, true)
                    }
                } else {
                    match scalar_spec(v) {
                        Some(x) => block_from(lines, i + 1, ind, map, list.push(x), true),
                        None => BlockV::BadScalar,
                    }
                }
            } else {
                match key_val_spec(t) {
                    Some((k, v)) => if v.len() == 0 {
                        if nested {
                            match block_from(
                                lines,
                                i + 1,
                                run_len(lines[i + 1], ' '),
                                Seq::empty(),
                                Seq::empty(),
                                false,
                            ) {
                                BlockV::Done(r, j) => if i < j <= lines.len() {
                                    block_from(
                                        lines,
                                        j,
                                        ind,
                                        match r {
                                            Some(x) => members_insert(map, k, x),
                                            None => map,
                                        },
                                        list,
                                        is_list,
                                    )
                                } else {
                                    BlockV::BadScalar
                                },
                                BlockV::BadScalar => BlockV::BadScalar,
                            }
                        } else {
                            block_from(
                                lines,
                                i + 1,
                                ind,
                                members_insert(map, k, JsonV::Null),
                                list,
                                is_list,
                            )
                        }
                    } else {
                        match scalar_spec(v) {
                            Some(x) => block_from(
                                lines,
                                i + 1,
                                ind,
                                members_insert(map, k, x),
                                list,
                                is_list,
                            ),
                            None => BlockV::BadScalar,
                        }
                    },
                    None => BlockV::Done(None, i + 1),
                }
            }
        }
    }
}

/// The frontmatter's value: `Ok(None)` for none or a blank one, `Ok` of a
/// non-empty map, `Err` with a message for anything else (a top level that
/// is not a map, or a scalar that cannot be read).
pub open spec fn yaml_spec(raw: Option<Seq<char>>) -> Result<Option<JsonV>, Seq<char>> {
    match raw {
        None => Ok(None),
        Some(s) => {
            let t = trim(s);
            if t.len() == 0 {
                Ok(None)
            } else {
                match block_from(lines_from(t, 0), 0, 0, Seq::empty(), Seq::empty(), false) {
                    BlockV::BadScalar => Err("invalid scalar"@),
                    BlockV::Done(Some(JsonV::Object(m)), _) => if m.len() == 0 {
                        Ok(None)
                    } else {
                        Ok(Some(JsonV::Object(m)))
                    },
                    BlockV::Done(_, _) => Err("invalid block"@),
                }
            }
        },
    }
}

pub open spec fn lines_view(v: Seq<Vec<char>>) -> Seq<Seq<char>> {
    v.map_values(|l: Vec<char>| l@)
}

/// The lines of `t` (`str::lines`).
fn yaml_lines(t: &[char]) -> (r: Vec<Vec<char>>)
    ensures
        lines_view(r@) == lines_from(t@, 0),
{
    let mut out: Vec<Vec<char>> = Vec::new();
    let mut i: usize = 0;
    assert(lines_view(out@) =~= Seq::empty());
    while i < t.len()
        invariant
            i <= t.len(),
            lines_from(t@, 0) == lines_view(out@) + lines_from(t@, i as int),
        decreases t.len() - i,
    {
        let e = line_end_at(t, i);
        let ghost raw = t@.subrange(i as int, e as int);
        let mut b = e;
        if t[b - 1] == '\n' {
            b = b - 1;
            if b > i && t[b - 1] == '\r' {
                b = b - 1;
            }
        }
        let line = slice_vec(t, i, b);
        assert(line@ == lines_from(t@, i as int)[0]);
        let ghost o0 = lines_view(out@);
        out.push(line);
        assert(lines_view(out@) =~= o0.push(line@));
        assert(lines_from(t@, i as int) =~= seq![line@] + lines_from(t@, e as int));
        assert(lines_view(out@) + lines_from(t@, e as int) =~= o0 + lines_from(t@, i as int));
        i = e;
    }
    assert(lines_view(out@) + Seq::<Seq<char>>::empty() =~= lines_view(out@));
    out
}

/// Where `t` splits into a key and a value: the trimmed key's bounds and
/// the trimmed value's bounds.
fn key_val_ranges(t: &[char]) -> (r: Option<(usize, usize, usize, usize)>)
    ensures
        match key_val_spec(t@) {
            Some((k, v)) => r matches Some(x) && x.0 <= x.1 <= t.len() && x.2 <= x.3 <= t.len()
                && t@.subrange(x.0 as int, x.1 as int) == k && t@.subrange(x.2 as int, x.3 as int)
                == v,
            None => r is None,
        },
{
    match find_char(t, 0, ':') {
        Some(c) => {
            if c == t.len() - 1 || (c + 1 < t.len() && t[c + 1] == ' ') {
                let (ka, kb) = trim_range(t, 0, c);
                let (va, vb) = trim_range(t, c + 1, t.len());
                Some((ka, kb, va, vb))
            } else {
                None
            }
        },
        None => None,
    }
}

/// Splits a `key: value` line at its first colon, when the colon ends the
/// line or is followed by a space; both parts are trimmed.
pub fn split_key_val(s: &str) -> (r: Option<(&str, &str)>)
    ensures
        match key_val_spec(s@) {
            Some((k, v)) => r matches Some(x) && x.0@ == k && x.1@ == v,
            None => r is None,
        },
{
    let t = str_chars(s);
    match key_val_ranges(&t) {
        Some((ka, kb, va, vb)) => Some((s.substring_char(ka, kb), s.substring_char(va, vb))),
        None => None,
    }
}

/// The number of spaces that `s` starts with.
pub fn get_indent(s: &str) -> (r: usize)
    ensures
        r == run_len(s@, ' '),
{
    let t = str_chars(s);
    let r = run_len_at(&t, 0, t.len(), ' ');
    assert(t@.subrange(0, t@.len() as int) =~= s@);
    r
}

pub open spec fn opt_json(o: Option<Json>) -> Option<JsonV> {
    match o {
        Some(j) => Some(j@),
        None => None,
    }
}

fn block_value_exec(map: Vec<(String, Json)>, list: Vec<Json>, is_list: bool) -> (r: Json)
    ensures
        r@ == block_value(view_members(map@), view_items(list@), is_list),
{
    if is_list {
        Json::Array(list)
    } else {
        Json::Object(map)
    }
}

/// Reads the block with indent `ind` that starts at line `i`: its value
/// (`None` for an unreadable line) and the index of the line after it;
/// `None` where a scalar of it cannot be read.
fn parse_block(lines: &Vec<Vec<char>>, i: usize, ind: usize) -> (r: Option<(Option<Json>, usize)>)
    requires
        i <= lines.len(),
    ensures
        match r {
            Some((v, j)) => block_from(
                lines_view(lines@),
                i as int,
                ind as nat,
                Seq::empty(),
                Seq::empty(),
                false,
            ) == BlockV::Done(opt_json(v), j as int) && i <= j <= lines.len(),
            None => block_from(
                lines_view(lines@),
                i as int,
                ind as nat,
                Seq::empty(),
                Seq::empty(),
                false,
            ) is BadScalar,
        },
    decreases lines.len() - i,
{
    broadcast use group_json_view;

    let ghost lv = lines_view(lines@);
    let ghost goal = block_from(lv, i as int, ind as nat, Seq::empty(), Seq::empty(), false);
    let mut map: Vec<(String, Json)> = Vec::new();
    let mut list: Vec<Json> = Vec::new();
    let mut is_list = false;
    let mut pos = i;
    assert(view_members(map@) =~= Seq::empty());
    assert(view_items(list@) =~= Seq::empty());
    loop
        invariant
            i <= pos <= lines.len(),
            lv == lines_view(lines@),
            lv.len() == lines.len(),
            goal == block_from(lv, i as int, ind as nat, Seq::empty(), Seq::empty(), false),
            goal == block_from(
                lv,
                pos as int,
                ind as nat,
                view_members(map@),
                view_items(list@),
                is_list,
            ),
        decreases lines.len() - pos,
    {
        if pos >= lines.len() {
            let v = block_value_exec(map, list, is_list);
            return Some((Some(v), pos));
        }
        let line = &lines[pos];
        assert(line@ == lv[pos as int]);
        assert(line@.subrange(0, line@.len() as int) =~= line@);
        let (a, b) = trim_range(line.as_slice(), 0, line.len());
        if a == b {
            pos = pos + 1;
            continue;
        }
        let li = run_len_at(line.as_slice(), 0, line.len(), ' ');
        if li != ind {
            let v = block_value_exec(map, list, is_list);
            return Some((Some(v), pos));
        }
        let t = slice_vec(line.as_slice(), a, b);
        let mut next_ind: usize = 0;
        if pos + 1 < lines.len() {
            let next = &lines[pos + 1];
            assert(next@ == lv[pos + 1]);
            assert(next@.subrange(0, next@.len() as int) =~= next@);
            next_ind = run_len_at(next.as_slice(), 0, next.len(), ' ');
        }
        let nested = pos + 1 < lines.len() && next_ind > ind;
        assert(t@ == trim(lv[pos as int]));
        assert(t@.len() > 0);
        assert(run_len(lv[pos as int], ' ') == ind);
        assert(nested == (pos + 1 < lv.len() && run_len(lv[pos + 1], ' ') > ind));
        assert(pos + 1 < lv.len() ==> next_ind == run_len(lv[pos + 1], ' '));
        if t.len() >= 2 && t[0] == '-' && t[1] == ' ' {
            assert(is_item(t@));
            let (va, vb) = trim_range(t.as_slice(), 2, t.len());
            if va == vb {
                if pos + 1 < lines.len() {
                    if nested {
                        match parse_block(lines, pos + 1, next_ind) {
                            Some((r, j)) => {
                                match r {
                                    Some(x) => {
                                        push_item(&mut list, x);
                                    },
                                    None => {},
                                }
                                is_list = true;
                                pos = j;
                            },
                            None => {
                                return None;
                            },
                        }
                    } else {
                        push_item(&mut list, Json::Null);
                        is_list = true;
                        pos = pos + 1;
                    }
                } else {
                    is_list = true;
                    pos = pos + 1;
                }
            } else {
                let v = slice_vec(t.as_slice(), va, vb);
                match parse_scalar(&v) {
                    Some(x) => {
                        push_item(&mut list, x);
                        is_list = true;
                        pos = pos + 1;
                    },
                    None => {
                        return None;
                    },
                }
            }
        } else {
            assert(!is_item(t@));
            match key_val_ranges(&t) {
                Some((ka, kb, va, vb)) => {
                    let k = string_of_range(t.as_slice(), ka, kb);
                    if va == vb {
                        if nested {
                            match parse_block(lines, pos + 1, next_ind) {
                                Some((r, j)) => {
                                    match r {
                                        Some(x) => {
                                            obj_insert(&mut map, k, x);
                                        },
                                        None => {},
                                    }
                                    pos = j;
                                },
                                None => {
                                    return None;
                                },
                            }
                        } else {
                            obj_insert(&mut map, k, Json::Null);
                            pos = pos + 1;
                        }
                    } else {
                        let v = slice_vec(t.as_slice(), va, vb);
                        match parse_scalar(&v) {
                            Some(x) => {
                                obj_insert(&mut map, k, x);
                                pos = pos + 1;
                            },
                            None => {
                                return None;
                            },
                        }
                    }
                },
                None => {
                    return Some((None, pos + 1));
                },
            }
        }
    }
}

/// The characters of an optional string.
pub open spec fn opt_str(raw: Option<&str>) -> Option<Seq<char>> {
    match raw {
        Some(s) => Some(s@),
        None => None,
    }
}

/// Reads the frontmatter text `raw` (without its `---` lines) as a YAML map:
/// `Ok(None)` when there is none, it is blank, or its map is empty; an
/// `InvalidFrontmatter` error when its top level is not a map or a scalar
/// cannot be read.
pub fn parse_yaml_frontmatter(raw: Option<&str>) -> (r: Result<Option<Json>, CompileError>)
    ensures
        match yaml_spec(opt_str(raw)) {
            Ok(m) => r matches Ok(x) && opt_json(x) == m,
            Err(e) => r matches Err(CompileError::InvalidFrontmatter(msg)) && msg@ == e,
        },
{
    broadcast use group_json_view;

    match raw {
        None => Ok(None),
        Some(s) => {
            let c = str_chars(s);
            let (a, b) = trim_range(c.as_slice(), 0, c.len());
            assert(c@.subrange(0, c@.len() as int) =~= s@);
            if a == b {
                return Ok(None);
            }
            let t = slice_vec(c.as_slice(), a, b);
            let lines = yaml_lines(t.as_slice());
            assert(t@ == trim(s@));
            assert(lines_view(lines@) == lines_from(trim(s@), 0));
            match parse_block(&lines, 0, 0) {
                None => Err(CompileError::InvalidFrontmatter(own("invalid scalar"))),
                Some((r, _)) => match r {
                    Some(Json::Object(m)) => {
                        assert(view_members(m@).len() == m@.len());
                        if m.len() == 0 {
                            Ok(None)
                        } else {
                            Ok(Some(Json::Object(m)))
                        }
                    },
                    _ => Err(CompileError::InvalidFrontmatter(own("invalid block"))),
                },
            }
        },
    }
}

/// Frontmatter metadata, when there is any, is a non-empty map.
pub proof fn lemma_metadata_is_a_map(raw: Option<Seq<char>>)
    ensures
        yaml_spec(raw) matches Ok(Some(v)) ==> v matches JsonV::Object(m) && m.len() > 0,
{
}

/// A text without leading or trailing whitespace is its own trim.
proof fn lemma_trim_plain(t: Seq<char>)
    requires
        t.len() > 0,
        !is_ws(t[0]),
        !is_ws(t.last()),
    ensures
        trim(t) == t,
{
    assert(trimmed_end_len(t) == t.len());
    assert(t.subrange(0, t.len() as int) =~= t);
    assert(ws_prefix_len(t) == 0);
}

/// A one-line frontmatter `k: v`, for a key `k` (no colon, no line break,
/// not starting with `- `, no surrounding whitespace) and a scalar text `v`
/// (no line break, no surrounding whitespace), is the map that binds `k` to
/// the scalar's value.
pub proof fn lemma_one_line_map(k: Seq<char>, v: Seq<char>)
    requires
        k.len() > 0,
        v.len() > 0,
        !is_ws(k[0]),
        !is_ws(k.last()),
        !is_ws(v[0]),
        !is_ws(v.last()),
        !k.contains(':'),
        !k.contains('\n'),
        !v.contains('\n'),
        !(k.len() >= 2 && k[0] == '-' && k[1] == ' '),
        scalar_spec(v) is Some,
    ensures
        yaml_spec(Some(k + ": "@ + v)) == Ok::<Option<JsonV>, Seq<char>>(
            Some(JsonV::Object(seq![(k, scalar_spec(v)->0)])),
        ),
{
    reveal_strlit(": ");
    let sep = ": "@;
    assert(sep.len() == 2 && sep[0] == ':' && sep[1] == ' ');
    let s = k + sep + v;
    let n = k.len() as int;
    assert(s.len() == n + 2 + v.len());
    assert(s[0] == k[0]);
    assert(s[n] == ':' && s[n + 1] == ' ');
    assert(s.last() == v.last());
    assert forall|j: int| 0 <= j < n implies s[j] == k[j] by {}
    assert forall|j: int| 0 <= j < v.len() implies s[n + 2 + j] == v[j] by {}
    // The text is its own trim, and one line.
    lemma_trim_plain(s);
    crate::text::lemma_find_char_from(s, 0, '\n');
    assert forall|j: int| 0 <= j < s.len() implies s[j] != '\n' by {
        if j < n {
            assert(k[j] == s[j]);
            assert(!k.contains('\n'));
        } else if j >= n + 2 {
            assert(v[j - n - 2] == s[j]);
        }
    }
    assert(line_end(s, 0) == s.len());
    assert(s.subrange(0, s.len() as int) =~= s);
    assert(lines_from(s, s.len() as int) == Seq::<Seq<char>>::empty());
    assert(lines_from(s, 0) =~= seq![s]);
    // The line's indent and shape.
    lemma_run_len(s, ' ');
    assert(run_len(s, ' ') == 0);
    assert(!is_item(s));
    // Its key and value.
    crate::text::lemma_find_char_from(s, 0, ':');
    assert forall|j: int| 0 <= j < n implies s[j] != ':' by {
        assert(k[j] == s[j]);
    }
    assert(find_char_from(s, 0, ':') == Some(n));
    assert(s.subrange(0, n) =~= k);
    lemma_trim_plain(k);
    let rest = s.subrange(n + 1, s.len() as int);
    assert(rest =~= seq![' '] + v);
    assert(rest.drop_first() =~= v);
    assert(trimmed_end_len(rest) == rest.len());
    assert(rest.subrange(0, rest.len() as int) =~= rest);
    assert(ws_prefix_len(rest) == 1 + ws_prefix_len(v));
    assert(ws_prefix_len(v) == 0);
    assert(trim(rest) =~= v);
    assert(key_val_spec(s) == Some((k, v)));
    let x = scalar_spec(v)->0;
    assert(members_insert(Seq::<(Seq<char>, JsonV)>::empty(), k, x) =~= seq![(k, x)]);
    let lines = seq![s];
    assert(block_from(lines, 1, 0, seq![(k, x)], Seq::empty(), false) == BlockV::Done(
        Some(JsonV::Object(seq![(k, x)])),
        1,
    ));
}

proof fn lemma_bool_texts()
    ensures
        scalar_spec("false"@) == Some(JsonV::Bool(false)),
        scalar_spec("true"@) == Some(JsonV::Bool(true)),
        "false"@.len() == 5 && "false"@[0] == 'f' && "false"@[4] == 'e' && !"false"@.contains('\n'),
        "true"@.len() == 4 && "true"@[0] == 't' && "true"@[3] == 'e' && !"true"@.contains('\n'),
{
    reveal_strlit("false");
    reveal_strlit("true");
    assert("false"@.len() == 5 && "true"@.len() == 4);
    assert forall|j: int| 0 <= j < 5 implies "false"@[j] != '\n' by {}
    assert forall|j: int| 0 <= j < 4 implies "true"@[j] != '\n' by {}
}

proof fn lemma_sep_texts()
    ensures
        ": false"@ == ": "@ + "false"@,
        ": true"@ == ": "@ + "true"@,
{
    reveal_strlit("false");
    reveal_strlit("true");
    reveal_strlit(": ");
    reveal_strlit(": false");
    reveal_strlit(": true");
    assert(": false"@ =~= ": "@ + "false"@);
    assert(": true"@ =~= ": "@ + "true"@);
}

/// The plain scalars `false` and `true` are booleans: for every key `k`,
/// the frontmatter `k: false` binds `k` to the boolean false and `k: true`
/// to the boolean true, never to a string.
pub proof fn lemma_boolean_scalars(k: Seq<char>)
    requires
        k.len() > 0,
        !is_ws(k[0]),
        !is_ws(k.last()),
        !k.contains(':'),
        !k.contains('\n'),
        !(k.len() >= 2 && k[0] == '-' && k[1] == ' '),
    ensures
        yaml_spec(Some(k + ": false"@)) == Ok::<Option<JsonV>, Seq<char>>(
            Some(JsonV::Object(seq![(k, JsonV::Bool(false))])),
        ),
        yaml_spec(Some(k + ": true"@)) == Ok::<Option<JsonV>, Seq<char>>(
            Some(JsonV::Object(seq![(k, JsonV::Bool(true))])),
        ),
{
    lemma_bool_texts();
    lemma_sep_texts();
    assert(!is_ws('f') && !is_ws('t') && !is_ws('e'));
    lemma_one_line_map(k, "false"@);
    lemma_one_line_map(k, "true"@);
    assert(k + ": false"@ =~= k + ": "@ + "false"@);
    assert(k + ": true"@ =~= k + ": "@ + "true"@);
}

/// A double-quoted scalar is the string between its quotes: for every key
/// `k` and text `x` (without a line break), the frontmatter `k: "x"` binds
/// `k` to the string `x`.
pub proof fn lemma_quoted_scalar(k: Seq<char>, x: Seq<char>)
    requires
        k.len() > 0,
        !is_ws(k[0]),
        !is_ws(k.last()),
        !k.contains(':'),
        !k.contains('\n'),
        !(k.len() >= 2 && k[0] == '-' && k[1] == ' '),
        !x.contains('\n'),
    ensures
        yaml_spec(Some(k + ": "@ + (seq!['"'] + x + seq!['"']))) == Ok::<Option<JsonV>, Seq<char>>(
            Some(JsonV::Object(seq![(k, JsonV::Str(x))])),
        ),
{
    let v = seq!['"'] + x + seq!['"'];
    reveal_strlit("true");
    reveal_strlit("false");
    assert("true"@[0] == 't' && "false"@[0] == 'f');
    assert(v[0] == '"' && v.last() == '"' && v.len() == x.len() + 2);
    assert(v != "true"@ && v != "false"@);
    assert(v.subrange(1, v.len() - 1) =~= x);
    assert(scalar_spec(v) == Some(JsonV::Str(x)));
    assert forall|j: int| 0 <= j < v.len() implies v[j] != '\n' by {
        if 0 < j < v.len() - 1 {
            assert(v[j] == x[j - 1]);
        }
    }
    assert(!is_ws('"'));
    lemma_one_line_map(k, v);
}


} // verus!
