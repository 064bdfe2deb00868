//! Inline widgets: `:[visible text]{name key=value key2="quoted value" flag}`.
use vstd::prelude::*;
use crate::attrs::{info_attrs, info_name, parse_fence_info};
use crate::cmark::{MdEvent, MdEventV};
use crate::event_filter::{rich_view, RichEvent, RichV};
use crate::json_value::{view_members, JsonV};
use crate::text::{
    byte_len, char_width, find_char, find_char_from, lemma_byte_len_concat, lemma_byte_len_push, lemma_find_char_from,
    string_of_range};

verus! {

/// `a + b`, saturated at `usize::MAX`.
pub open spec fn sat_add(a: usize, b: nat) -> usize {
    if a + b <= usize::MAX {
        (a + b) as usize
    } else {
        usize::MAX
    }
}

/// `off` advanced by the byte length of `s[from..to]` (saturating).
pub fn advance(off: usize, s: &[char], from: usize, to: usize) -> (r: usize)
    requires
        from <= to <= s.len(),
    ensures
        r == sat_add(off, byte_len(s@.subrange(from as int, to as int))),
{
    let mut r = off;
    let mut i = from;
    assert(s@.subrange(from as int, from as int) =~= Seq::<char>::empty());
    while i < to
        invariant
            from <= i <= to <= s.len(),
            r == sat_add(off, byte_len(s@.subrange(from as int, i as int))),
        decreases to - i,
    {
        proof {
            assert(s@.subrange(from as int, i + 1) =~= s@.subrange(from as int, i as int).push(s@[i as int]));
            lemma_byte_len_push(s@.subrange(from as int, i as int), s@[i as int]);
        }
        r = r.saturating_add(char_width(s[i]));
        i = i + 1;
    }
    r
}

/// Index of the first occurrence of `a` followed by `b` in `s[from..]`.
pub open spec fn find_pair_from(s: Seq<char>, from: int, a: char, b: char) -> Option<int>
    decreases s.len() - from,
{
    if from < 0 || from + 1 >= s.len() {
        None
    } else if s[from] == a && s[from + 1] == b {
        Some(from)
    } else {
        find_pair_from(s, from + 1, a, b)
    }
}

pub proof fn lemma_find_pair_from(s: Seq<char>, from: int, a: char, b: char)
    requires
        0 <= from,
    ensures
        find_pair_from(s, from, a, b) matches Some(k) ==> from <= k && k + 1 < s.len() && s[k] == a
            && s[k + 1] == b,
    decreases s.len() - from,
{
    if from + 1 < s.len() && !(s[from] == a && s[from + 1] == b) {
        lemma_find_pair_from(s, from + 1, a, b);
    }
}

/// Index of the first occurrence of `a` followed by `b` in `s[from..]`.
pub fn find_pair(s: &[char], from: usize, a: char, b: char) -> (r: Option<usize>)
    requires
        from <= s.len(),
    ensures
        match r {
            Some(k) => find_pair_from(s@, from as int, a, b) == Some(k as int) && from <= k && k + 1
                < s.len(),
            None => find_pair_from(s@, from as int, a, b) is None,
        },
{
    proof {
        lemma_find_pair_from(s@, from as int, a, b);
    }
    let mut i = from;
    while s.len() > 1 && i < s.len() - 1
        invariant
            from <= i <= s.len(),
            find_pair_from(s@, from as int, a, b) == find_pair_from(s@, i as int, a, b),
        decreases s.len() - i,
    {
        if s[i] == a && s[i + 1] == b {
            return Some(i);
        }
        i = i + 1;
    }
    None
}

/// The widget that starts at `s[p..]` (which starts with `:[`): its name,
/// visible text, attributes and length in characters. There is none when
/// `]{` or the closing `}` is missing, or when the name is empty.
pub open spec fn widget_at(s: Seq<char>, p: int) -> Option<
    (Seq<char>, Seq<char>, Seq<(Seq<char>, JsonV)>, int),
> {
    match find_pair_from(s, p + 2, ']', '{') {
        None => None,
        Some(b) => match find_char_from(s, b + 2, '}') {
            None => None,
            Some(c) => {
                let info = s.subrange(b + 2, c);
                if info_name(info).len() == 0 {
                    None
                } else {
                    Some((info_name(info), s.subrange(p + 2, b), info_attrs(info), c + 1 - p))
                }
            },
        },
    }
}

pub proof fn lemma_widget_at(s: Seq<char>, p: int)
    requires
        0 <= p,
        p + 2 <= s.len(),
    ensures
        widget_at(s, p) matches Some(w) ==> 2 < w.3 && p + w.3 <= s.len(),
{
    lemma_find_pair_from(s, p + 2, ']', '{');
    if let Some(b) = find_pair_from(s, p + 2, ']', '{') {
        lemma_find_char_from(s, b + 2, '}');
    }
}

/// A text event.
pub open spec fn text_ev(t: Seq<char>, start: usize, end: usize) -> RichV {
    RichV::Cmark(MdEventV::Text(t), start, end)
}

/// The events that `s[r..]` becomes at byte offset `off`, after `out`: plain
/// text chunks, and a widget node for each well-formed `:[text]{name ...}`.
/// When a `:[` does not start a widget, that `:[` is emitted as one more
/// text event, so each character of `s` is emitted once.
pub open spec fn scan_from(s: Seq<char>, r: int, off: usize, out: Seq<RichV>) -> Seq<RichV>
    decreases s.len() - r,
{
    if r < 0 || r >= s.len() {
        out
    } else {
        match find_pair_from(s, r, ':', '[') {
            None => {
                let t = s.subrange(r, s.len() as int);
                out.push(text_ev(t, off, sat_add(off, byte_len(t))))
            },
            Some(p) => {
                proof {
                    lemma_find_pair_from(s, r, ':', '[');
                    lemma_widget_at(s, p);
                }
                let pre = s.subrange(r, p);
                let out1 = if p > r {
                    out.push(text_ev(pre, off, sat_add(off, byte_len(pre))))
                } else {
                    out
                };
                let off1 = if p > r {
                    sat_add(off, byte_len(pre))
                } else {
                    off
                };
                match widget_at(s, p) {
                    Some((name, text, attrs, n)) => {
                        let end = sat_add(off1, byte_len(s.subrange(p, p + n)));
                        scan_from(
                            s,
                            p + n,
                            end,
                            out1.push(RichV::Widget { name, text, attrs, start: off1, end }),
                        )
                    },
                    None => {
                        let chunk = s.subrange(p, p + 2);
                        scan_from(
                            s,
                            p + 2,
                            sat_add(off1, byte_len(chunk)),
                            out1.push(text_ev(chunk, off1, sat_add(off1, byte_len(chunk)))),
                        )
                    },
                }
            },
        }
    }
}

/// The events of the text `s` found at byte offset `off`.
pub open spec fn scan_spec(s: Seq<char>, off: usize) -> Seq<RichV> {
    scan_from(s, 0, off, Seq::empty())
}

fn text_event(t: String, start: usize, end: usize) -> (r: RichEvent)
    ensures
        r@ == text_ev(t@, start, end),
{
    RichEvent::Cmark(MdEvent::Text(t), start, end)
}

/// Parses the widget at `s[p..]`, which starts with `:[`.
fn parse_inline_widget_at(s: &[char], p: usize) -> (r: Option<(String, String, Vec<(String, crate::json_value::Json)>, usize)>)
    requires
        p + 2 <= s.len(),
    ensures
        match r {
            Some((name, text, attrs, n)) => widget_at(s@, p as int) == Some(
                (name@, text@, view_members(attrs@), n as int),
            ),
            None => widget_at(s@, p as int) is None,
        },
{
    proof {
        lemma_find_pair_from(s@, p + 2, ']', '{');
    }
    let b = match find_pair(s, p + 2, ']', '{') {
        Some(b) => b,
        None => return None,
    };
    let c = match find_char(s, b + 2, '}') {
        Some(c) => c,
        None => return None,
    };
    let info = string_of_range(s, b + 2, c);
    let (name, attrs) = parse_fence_info(info.as_str());
    if name.as_str().is_empty() {
        return None;
    }
    let text = string_of_range(s, p + 2, b);
    Some((name, text, attrs, c + 1 - p))
}

/// Splits the text `s`, found at byte offset `start_offset`, into plain text
/// chunks and inline widget events.
pub fn scan_inline_widgets(s: &[char], start_offset: usize) -> (r: Vec<RichEvent>)
    ensures
        rich_view(r@) == scan_spec(s@, start_offset),
{
    let mut result: Vec<RichEvent> = Vec::new();
    let mut r: usize = 0;
    let mut off = start_offset;
    assert(rich_view(result@) =~= Seq::empty());
    while r < s.len()
        invariant
            r <= s.len(),
            scan_spec(s@, start_offset) == scan_from(s@, r as int, off, rich_view(result@)),
        decreases s.len() - r,
    {
        let ghost r0 = r;
        let ghost out0 = rich_view(result@);
        match find_pair(s, r, ':', '[') {
            None => {
                let t = string_of_range(s, r, s.len());
                let end = advance(off, s, r, s.len());
                result.push(text_event(t, off, end));
                assert(rich_view(result@) =~= out0.push(text_ev(s@.subrange(r as int, s@.len() as int), off, end)));
                r = s.len();
            },
            Some(p) => {
                let ghost off0 = off;
                if p > r {
                    let t = string_of_range(s, r, p);
                    let end = advance(off, s, r, p);
                    let ghost tv = text_ev(t@, off, end);
                    result.push(text_event(t, off, end));
                    assert(rich_view(result@) =~= out0.push(tv));
                    off = end;
                }
                proof {
                    lemma_widget_at(s@, p as int);
                }
                match parse_inline_widget_at(s, p) {
                    Some((name, text, attrs, n)) => {
                        let end = advance(off, s, p, p + n);
                        let ghost out1 = rich_view(result@);
                        let ghost w = RichV::Widget {
                            name: name@,
                            text: text@,
                            attrs: view_members(attrs@),
                            start: off,
                            end,
                        };
                        result.push(RichEvent::Widget { name, text, attrs, start: off, end });
                        assert(rich_view(result@) =~= out1.push(w));
                        r = p + n;
                        off = end;
                    },
                    None => {
                        let t = string_of_range(s, p, p + 2);
                        let end = advance(off, s, p, p + 2);
                        let ghost out1 = rich_view(result@);
                        let ghost tv = text_ev(t@, off, end);
                        result.push(text_event(t, off, end));
                        assert(rich_view(result@) =~= out1.push(tv));
                        r = p + 2;
                        off = end;
                    },
                }
            },
        }
    }
    result
}

/// Where an event of the stream starts and ends (bytes).
pub open spec fn ev_range(e: RichV) -> (usize, usize) {
    match e {
        RichV::Cmark(_, a, b) => (a, b),
        RichV::Widget { start, end, .. } => (start, end),
        RichV::LinkImageAttrs(_) => (0, 0),
    }
}

/// Whether the events lie end to end from the byte offset `from` on.
pub open spec fn contiguous(evs: Seq<RichV>, from: usize) -> bool {
    &&& evs.len() > 0 ==> ev_range(evs[0]).0 == from
    &&& forall|k: int| 0 <= k < evs.len() - 1 ==> #[trigger] ev_range(evs[k]).1 == ev_range(evs[k + 1]).0
}

proof fn lemma_sat_add_add(a: usize, x: nat, y: nat)
    ensures
        sat_add(sat_add(a, x), y) == sat_add(a, x + y),
{
}

proof fn lemma_push_contiguous(out: Seq<RichV>, from: usize, off: usize, e: RichV)
    requires
        contiguous(out, from),
        out.len() > 0 ==> ev_range(out.last()).1 == off,
        out.len() == 0 ==> off == from,
        ev_range(e).0 == off,
    ensures
        contiguous(out.push(e), from),
{
    let o = out.push(e);
    assert forall|k: int| 0 <= k < o.len() - 1 implies #[trigger] ev_range(o[k]).1 == ev_range(o[k + 1]).0 by {
        if k < out.len() - 1 {
            assert(o[k] == out[k] && o[k + 1] == out[k + 1]);
        } else {
            assert(o[k] == out.last());
        }
    }
}

proof fn lemma_offset_step(s: Seq<char>, from: usize, a: int, b: int)
    requires
        0 <= a <= b <= s.len(),
    ensures
        sat_add(sat_add(from, byte_len(s.subrange(0, a))), byte_len(s.subrange(a, b))) == sat_add(
            from,
            byte_len(s.subrange(0, b)),
        ),
{
    lemma_byte_len_concat(s.subrange(0, a), s.subrange(a, b));
    assert(s.subrange(0, a) + s.subrange(a, b) =~= s.subrange(0, b));
    lemma_sat_add_add(from, byte_len(s.subrange(0, a)), byte_len(s.subrange(a, b)));
}

proof fn lemma_scan_contiguous_from(s: Seq<char>, r: int, off: usize, out: Seq<RichV>, from: usize)
    requires
        0 <= r <= s.len(),
        contiguous(out, from),
        out.len() > 0 ==> ev_range(out.last()).1 == off,
        out.len() == 0 ==> off == from,
        off == sat_add(from, byte_len(s.subrange(0, r))),
    ensures
        contiguous(scan_from(s, r, off, out), from),
        scan_from(s, r, off, out).len() > 0 ==> ev_range(scan_from(s, r, off, out).last()).1 == sat_add(
            from,
            byte_len(s),
        ),
    decreases s.len() - r,
{
    assert(s.subrange(0, s.len() as int) =~= s);
    if r < s.len() {
        lemma_find_pair_from(s, r, ':', '[');
        match find_pair_from(s, r, ':', '[') {
            None => {
                let t = s.subrange(r, s.len() as int);
                lemma_offset_step(s, from, r, s.len() as int);
                lemma_push_contiguous(out, from, off, text_ev(t, off, sat_add(off, byte_len(t))));
            },
            Some(p) => {
                lemma_widget_at(s, p);
                let pre = s.subrange(r, p);
                lemma_offset_step(s, from, r, p);
                let off1 = sat_add(off, byte_len(pre));
                let out1 = if p > r {
                    out.push(text_ev(pre, off, off1))
                } else {
                    out
                };
                if p > r {
                    lemma_push_contiguous(out, from, off, text_ev(pre, off, off1));
                } else {
                    assert(pre =~= Seq::<char>::empty());
                }
                let n: int = match widget_at(s, p) {
                    Some(w) => w.3,
                    None => 2,
                };
                let seg = s.subrange(p, p + n);
                let end = sat_add(off1, byte_len(seg));
                let ev = match widget_at(s, p) {
                    Some((name, text, attrs, _)) => RichV::Widget { name, text, attrs, start: off1, end },
                    None => text_ev(seg, off1, end),
                };
                lemma_push_contiguous(out1, from, off1, ev);
                lemma_offset_step(s, from, p, p + n);
                assert(scan_from(s, r, off, out) == scan_from(s, p + n, end, out1.push(ev)));
                lemma_scan_contiguous_from(s, p + n, end, out1.push(ev), from);
            },
        }
    }
}

/// The events of a scanned text lie end to end: the first starts at the
/// text's offset, each starts where the one before ends, and the last ends
/// at the offset plus the text's byte length, so each character of the
/// text is covered once.
pub proof fn lemma_scan_contiguous(s: Seq<char>, off: usize)
    ensures
        contiguous(scan_spec(s, off), off),
        scan_spec(s, off).len() > 0 ==> ev_range(scan_spec(s, off).last()).1 == sat_add(off, byte_len(s)),
{
    assert(s.subrange(0, 0) =~= Seq::<char>::empty());
    assert(sat_add(off, 0) == off);
    lemma_scan_contiguous_from(s, 0, off, Seq::empty(), off);
}

} // verus!
