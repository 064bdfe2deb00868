//! Event stream transformations: text coalescing, inline widgets, and the
//! `{key=val}` suffix of links and images.
use vstd::prelude::*;
use crate::attrs::{attrs_of, parse_attr_block, tokens_of};
use crate::ast::into_reversed;
use crate::cmark::{cm_view, CmarkEvent, MdEvent, MdEventV, MdTag, MdTagEnd, MdTagV};
use crate::event_filter::{rich_view, RichEvent, RichV};
use crate::json_value::{lemma_view_members, view_members};
use crate::text::{
    byte_len, find_char, find_char_from, skip_ws, str_chars,
    string_from_chars, string_of_range, trim_start, lemma_ws_prefix_len, lemma_find_char_from};
use crate::widgets::{advance, sat_add, scan_inline_widgets, scan_spec, text_ev};

verus! {

/// Emits the pending text, if any, as one text event.
pub open spec fn flush_text(
    out: Seq<(MdEventV, usize, usize)>,
    buf: Seq<char>,
    off: Option<usize>,
) -> (Seq<(MdEventV, usize, usize)>, Seq<char>, Option<usize>) {
    if buf.len() > 0 {
        (out.push((MdEventV::Text(buf), off.unwrap(), off.unwrap())), Seq::empty(), None)
    } else {
        (out, buf, off)
    }
}

/// Pass 1: adjacent text and soft-break events become one text event (a
/// soft break counts as `\n`) that starts where the first of them starts.
pub open spec fn coalesce_from(
    ev: Seq<(MdEventV, usize, usize)>,
    i: int,
    out: Seq<(MdEventV, usize, usize)>,
    buf: Seq<char>,
    off: Option<usize>,
) -> Seq<(MdEventV, usize, usize)>
    decreases ev.len() - i,
{
    if i < 0 || i >= ev.len() {
        flush_text(out, buf, off).0
    } else {
        let (e, s, _t) = ev[i];
        let off1 = if off is None {
            Some(s)
        } else {
            off
        };
        match e {
            MdEventV::Text(t) => coalesce_from(ev, i + 1, out, buf + t, off1),
            MdEventV::SoftBreak => coalesce_from(ev, i + 1, out, buf.push('\n'), off1),
            _ => {
                let (o, b, f) = flush_text(out, buf, off);
                coalesce_from(ev, i + 1, o.push(ev[i]), b, f)
            },
        }
    }
}

/// Pass 2: every text event is split into text chunks and widgets.
pub open spec fn expand_one(e: (MdEventV, usize, usize)) -> Seq<RichV> {
    match e.0 {
        MdEventV::Text(t) => scan_spec(t, e.1),
        _ => seq![RichV::Cmark(e.0, e.1, e.2)],
    }
}

pub open spec fn expand_from(p: Seq<(MdEventV, usize, usize)>, i: int, out: Seq<RichV>) -> Seq<RichV>
    decreases p.len() - i,
{
    if i < 0 || i >= p.len() {
        out
    } else {
        expand_from(p, i + 1, out + expand_one(p[i]))
    }
}

pub open spec fn is_link_image_start(e: RichV) -> bool {
    match e {
        RichV::Cmark(MdEventV::Start(MdTagV::Link { .. }), _, _) => true,
        RichV::Cmark(MdEventV::Start(MdTagV::Image { .. }), _, _) => true,
        _ => false,
    }
}

pub open spec fn is_link_image_end(e: RichV) -> bool {
    match e {
        RichV::Cmark(MdEventV::End(MdTagEnd::Link), _, _) => true,
        RichV::Cmark(MdEventV::End(MdTagEnd::Image), _, _) => true,
        _ => false,
    }
}

/// The `{...}` suffix at the start of a text event: the attribute text, the
/// rest of the text, and the byte offset where the rest starts.
pub open spec fn attr_suffix(e: RichV) -> Option<(Seq<char>, Seq<char>, usize, usize)> {
    match e {
        RichV::Cmark(MdEventV::Text(t), ts, te) => if t.len() > 0 && t[0] == '{' {
            match find_char_from(t, 0, '}') {
                Some(k) => Some(
                    (
                        t.subrange(1, k),
                        t.subrange(k + 1, t.len() as int),
                        sat_add(ts, byte_len(t.subrange(0, k + 1))),
                        te,
                    ),
                ),
                None => None,
            }
        } else {
            None
        },
        _ => None,
    }
}

/// Pass 3: a `{key=val ...}` text right after a link or image end becomes a
/// `LinkImageAttrs` event just after the link or image start (when it binds
/// any attribute); a non-blank rest of that text stays as a text event.
pub open spec fn absorb_from(p: Seq<RichV>, i: int, out: Seq<RichV>, starts: Seq<int>) -> Seq<RichV>
    decreases p.len() - i,
{
    if i < 0 || i >= p.len() {
        out
    } else {
        let e = p[i];
        if is_link_image_start(e) {
            absorb_from(p, i + 1, out.push(e), starts.push(out.len() as int))
        } else if is_link_image_end(e) {
            let starts1 = if starts.len() > 0 {
                starts.drop_last()
            } else {
                starts
            };
            let suffix = if i + 1 < p.len() {
                attr_suffix(p[i + 1])
            } else {
                None
            };
            match suffix {
                Some((a, rest, rs, re)) => {
                    let attrs = attrs_of(tokens_of(a));
                    let out1 = if starts.len() > 0 && attrs.len() > 0 {
                        out.insert(starts.last() + 1, RichV::LinkImageAttrs(attrs))
                    } else {
                        out
                    };
                    if trim_start(rest).len() > 0 {
                        absorb_from(
                            p,
                            i + 2,
                            out1.push(e).push(RichV::Cmark(MdEventV::Text(rest), rs, re)),
                            starts1,
                        )
                    } else {
                        absorb_from(p, i + 2, out1.push(e), starts1)
                    }
                },
                None => absorb_from(p, i + 1, out.push(e), starts1),
            }
        } else {
            absorb_from(p, i + 1, out.push(e), starts)
        }
    }
}

/// The text `t[r..]`, found at byte offset `off`, cut at its newlines:
/// each line's text (when not empty) and a soft break for each newline.
pub open spec fn breaks_from(t: Seq<char>, r: int, off: usize, out: Seq<RichV>) -> Seq<RichV>
    decreases t.len() - r,
{
    if r < 0 || r >= t.len() {
        out
    } else {
        match find_char_from(t, r, '\n') {
            None => {
                let rest = t.subrange(r, t.len() as int);
                out.push(text_ev(rest, off, sat_add(off, byte_len(rest))))
            },
            Some(k) => {
                proof {
                    lemma_find_char_from(t, r, '\n');
                }
                let pre = t.subrange(r, k);
                let out1 = if k > r {
                    out.push(text_ev(pre, off, sat_add(off, byte_len(pre))))
                } else {
                    out
                };
                let o1 = sat_add(off, byte_len(pre));
                breaks_from(
                    t,
                    k + 1,
                    sat_add(o1, 1),
                    out1.push(RichV::Cmark(MdEventV::SoftBreak, o1, sat_add(o1, 1))),
                )
            },
        }
    }
}

/// Pass 4, for one event: a text that holds soft breaks (`\n`, from pass
/// 1) becomes its lines with a soft-break event between each two.
pub open spec fn split_one(e: RichV) -> Seq<RichV> {
    match e {
        RichV::Cmark(MdEventV::Text(t), a, _) => if find_char_from(t, 0, '\n') is Some {
            breaks_from(t, 0, a, Seq::empty())
        } else {
            seq![e]
        },
        _ => seq![e],
    }
}

/// Pass 4.
pub open spec fn split_from(p: Seq<RichV>, i: int, out: Seq<RichV>) -> Seq<RichV>
    decreases p.len() - i,
{
    if i < 0 || i >= p.len() {
        out
    } else {
        split_from(p, i + 1, out + split_one(p[i]))
    }
}

/// The enriched stream of the CommonMark events `ev`.
pub open spec fn transform_spec(ev: Seq<(MdEventV, usize, usize)>) -> Seq<RichV> {
    split_from(
        absorb_from(
            expand_from(coalesce_from(ev, 0, Seq::empty(), Seq::empty(), None), 0, Seq::empty()),
            0,
            Seq::empty(),
            Seq::empty(),
        ),
        0,
        Seq::empty(),
    )
}

/// Pass 1.
fn coalesce(events: Vec<CmarkEvent>) -> (r: Vec<CmarkEvent>)
    ensures
        cm_view(r@) == coalesce_from(cm_view(events@), 0, Seq::empty(), Seq::empty(), None),
{
    let ghost ev = cm_view(events@);
    let n = events.len();
    let mut rev = into_reversed(events);
    let mut out: Vec<CmarkEvent> = Vec::new();
    let mut buf: Vec<char> = Vec::new();
    let mut off: Option<usize> = None;
    let mut i: usize = 0;
    assert(cm_view(out@) =~= Seq::empty());
    while i < n
        invariant
            i <= n,
            ev.len() == n,
            rev@.len() == n - i,
            forall|k: int| 0 <= k < rev@.len() ==> #[trigger] rev@[k]@ == ev[n - 1 - k],
            coalesce_from(ev, 0, Seq::empty(), Seq::empty(), None) == coalesce_from(
                ev,
                i as int,
                cm_view(out@),
                buf@,
                off,
            ),
            buf@.len() > 0 ==> off is Some,
        decreases n - i,
    {
        let e = rev.pop().unwrap();
        assert(e@ == ev[i as int]);
        let ghost out0 = cm_view(out@);
        match e.event {
            MdEvent::Text(t) => {
                if off.is_none() {
                    off = Some(e.start);
                }
                let c = str_chars(t.as_str());
                let ghost b0 = buf@;
                let mut j: usize = 0;
                while j < c.len()
                    invariant
                        j <= c.len(),
                        buf@ == b0 + c@.subrange(0, j as int),
                    decreases c.len() - j,
                {
                    buf.push(c[j]);
                    assert(buf@ =~= b0 + c@.subrange(0, j + 1));
                    j = j + 1;
                }
                assert(c@.subrange(0, c@.len() as int) =~= c@);
            },
            MdEvent::SoftBreak => {
                if off.is_none() {
                    off = Some(e.start);
                }
                buf.push('\n');
            },
            other => {
                let ghost ev_i = ev[i as int];
                if buf.len() > 0 {
                    let s = off.unwrap();
                    let ghost tv = (MdEventV::Text(buf@), s, s);
                    out.push(CmarkEvent { event: MdEvent::Text(string_from_chars(&buf)), start: s, end: s });
                    assert(cm_view(out@) =~= out0.push(tv));
                    buf = Vec::new();
                    off = None;
                }
                let ghost out1 = cm_view(out@);
                out.push(CmarkEvent { event: other, start: e.start, end: e.end });
                assert(cm_view(out@) =~= out1.push(ev_i));
            },
        }
        i = i + 1;
    }
    if buf.len() > 0 {
        let s = off.unwrap();
        let ghost out0 = cm_view(out@);
        let ghost tv = (MdEventV::Text(buf@), s, s);
        out.push(CmarkEvent { event: MdEvent::Text(string_from_chars(&buf)), start: s, end: s });
        assert(cm_view(out@) =~= out0.push(tv));
    }
    out
}


/// Pass 2.
fn expand(p: Vec<CmarkEvent>) -> (r: Vec<RichEvent>)
    ensures
        rich_view(r@) == expand_from(cm_view(p@), 0, Seq::empty()),
{
    let ghost pv = cm_view(p@);
    let n = p.len();
    let mut rev = into_reversed(p);
    let mut out: Vec<RichEvent> = Vec::new();
    let mut i: usize = 0;
    assert(rich_view(out@) =~= Seq::empty());
    while i < n
        invariant
            i <= n,
            pv.len() == n,
            rev@.len() == n - i,
            forall|k: int| 0 <= k < rev@.len() ==> #[trigger] rev@[k]@ == pv[n - 1 - k],
            expand_from(pv, 0, Seq::empty()) == expand_from(pv, i as int, rich_view(out@)),
        decreases n - i,
    {
        let e = rev.pop().unwrap();
        assert(e@ == pv[i as int]);
        let ghost out0 = rich_view(out@);
        let ghost ev = e@;
        match e.event {
            MdEvent::Text(t) => {
                let c = str_chars(t.as_str());
                let mut w = scan_inline_widgets(c.as_slice(), e.start);
                let ghost wv = rich_view(w@);
                out.append(&mut w);
                assert(rich_view(out@) =~= out0 + wv);
                assert(expand_one(ev) == wv);
            },
            other => {
                out.push(RichEvent::Cmark(other, e.start, e.end));
                assert(rich_view(out@) =~= out0 + expand_one(ev));
            },
        }
        i = i + 1;
    }
    out
}

fn is_link_image_start_exec(e: &RichEvent) -> (r: bool)
    ensures
        r == is_link_image_start(e@),
{
    match e {
        RichEvent::Cmark(MdEvent::Start(MdTag::Link { .. }), _, _) => true,
        RichEvent::Cmark(MdEvent::Start(MdTag::Image { .. }), _, _) => true,
        _ => false,
    }
}

fn is_link_image_end_exec(e: &RichEvent) -> (r: bool)
    ensures
        r == is_link_image_end(e@),
{
    match e {
        RichEvent::Cmark(MdEvent::End(MdTagEnd::Link), _, _) => true,
        RichEvent::Cmark(MdEvent::End(MdTagEnd::Image), _, _) => true,
        _ => false,
    }
}

fn attr_suffix_exec(e: &RichEvent) -> (r: Option<(String, String, usize, usize)>)
    ensures
        match attr_suffix(e@) {
            Some(x) => r matches Some(y) && y.0@ == x.0 && y.1@ == x.1 && y.2 == x.2 && y.3 == x.3,
            None => r is None,
        },
{
    match e {
        RichEvent::Cmark(MdEvent::Text(t), ts, te) => {
            let c = str_chars(t.as_str());
            if c.len() > 0 && c[0] == '{' {
                match find_char(c.as_slice(), 0, '}') {
                    Some(k) => {
                        let a = string_of_range(c.as_slice(), 1, k);
                        let rest = string_of_range(c.as_slice(), k + 1, c.len());
                        let rs = advance(*ts, c.as_slice(), 0, k + 1);
                        Some((a, rest, rs, *te))
                    },
                    None => None,
                }
            } else {
                None
            }
        },
        _ => None,
    }
}

/// Whether `s` holds a character that is not whitespace.
fn has_non_ws(s: &str) -> (r: bool)
    ensures
        r == (trim_start(s@).len() > 0),
{
    let c = str_chars(s);
    let k = skip_ws(c.as_slice(), 0, c.len());
    proof {
        assert(c@.subrange(0, c@.len() as int) =~= c@);
        lemma_ws_prefix_len(c@);
    }
    k < c.len()
}

/// The start indices as integers.
pub open spec fn starts_view(s: Seq<usize>) -> Seq<int> {
    s.map_values(|x: usize| x as int)
}

/// Pass 3.
fn absorb(p: Vec<RichEvent>) -> (r: Vec<RichEvent>)
    ensures
        rich_view(r@) == absorb_from(rich_view(p@), 0, Seq::empty(), Seq::empty()),
{
    let ghost pv = rich_view(p@);
    let n = p.len();
    let mut rev = into_reversed(p);
    let mut out: Vec<RichEvent> = Vec::new();
    let mut starts: Vec<usize> = Vec::new();
    let mut i: usize = 0;
    assert(rich_view(out@) =~= Seq::empty());
    assert(starts_view(starts@) =~= Seq::empty());
    while i < n
        invariant
            i <= n,
            pv.len() == n,
            rev@.len() == n - i,
            forall|k: int| 0 <= k < rev@.len() ==> #[trigger] rev@[k]@ == pv[n - 1 - k],
            absorb_from(pv, 0, Seq::empty(), Seq::empty()) == absorb_from(
                pv,
                i as int,
                rich_view(out@),
                starts_view(starts@),
            ),
            forall|k: int| 0 <= k < starts@.len() ==> #[trigger] starts@[k] < out@.len(),
        decreases n - i,
    {
        let e = rev.pop().unwrap();
        assert(e@ == pv[i as int]);
        let ghost ov = rich_view(out@);
        let ghost sv = starts_view(starts@);
        if is_link_image_start_exec(&e) {
            starts.push(out.len());
            out.push(e);
            assert(rich_view(out@) =~= ov.push(pv[i as int]));
            assert(starts_view(starts@) =~= sv.push(ov.len() as int));
            i = i + 1;
        } else if is_link_image_end_exec(&e) {
            let ghost old_starts = starts@;
            let start_idx = starts.pop();
            assert(starts_view(starts@) =~= if sv.len() > 0 { sv.drop_last() } else { sv });
            let suffix = if rev.len() > 0 {
                assert(rev@[rev@.len() - 1]@ == pv[i + 1]);
                attr_suffix_exec(&rev[rev.len() - 1])
            } else {
                None
            };
            match suffix {
                Some((a, rest, rs, re)) => {
                    let attrs = parse_attr_block(a.as_str());
                    let ghost av = view_members(attrs@);
                    proof {
                        lemma_view_members(attrs@);
                    }
                    match start_idx {
                        Some(idx) => {
                            assert(idx == starts_view(old_starts)[old_starts.len() - 1]);
                            let ol = out.len();
                            assert(old_starts[old_starts.len() - 1] < ol);
                            if attrs.len() > 0 {
                                out.insert(idx + 1, RichEvent::LinkImageAttrs(attrs));
                                assert(rich_view(out@) =~= ov.insert(
                                    idx + 1,
                                    RichV::LinkImageAttrs(av),
                                ));
                            }
                        },
                        None => {},
                    }
                    let ghost o1 = rich_view(out@);
                    let _ = rev.pop();
                    if has_non_ws(rest.as_str()) {
                        let ghost rv = rest@;
                        out.push(e);
                        out.push(RichEvent::Cmark(MdEvent::Text(rest), rs, re));
                        assert(rich_view(out@) =~= o1.push(pv[i as int]).push(
                            RichV::Cmark(MdEventV::Text(rv), rs, re),
                        ));
                    } else {
                        out.push(e);
                        assert(rich_view(out@) =~= o1.push(pv[i as int]));
                    }
                    i = i + 2;
                },
                None => {
                    out.push(e);
                    assert(rich_view(out@) =~= ov.push(pv[i as int]));
                    i = i + 1;
                },
            }
        } else {
            out.push(e);
            assert(rich_view(out@) =~= ov.push(pv[i as int]));
            i = i + 1;
        }
    }
    out
}

/// The events of the text `t`, found at byte offset `off`, cut at its newlines.
fn split_text(t: &[char], off: usize) -> (r: Vec<RichEvent>)
    ensures
        rich_view(r@) == breaks_from(t@, 0, off, Seq::empty()),
{
    let mut out: Vec<RichEvent> = Vec::new();
    let mut r: usize = 0;
    let mut o = off;
    assert(rich_view(out@) =~= Seq::empty());
    while r < t.len()
        invariant
            r <= t.len(),
            breaks_from(t@, 0, off, Seq::empty()) == breaks_from(t@, r as int, o, rich_view(out@)),
        decreases t.len() - r,
    {
        let ghost out0 = rich_view(out@);
        proof {
            lemma_find_char_from(t@, r as int, '\n');
        }
        match find_char(t, r, '\n') {
            None => {
                let rest = string_of_range(t, r, t.len());
                let end = advance(o, t, r, t.len());
                let ghost ev = text_ev(rest@, o, end);
                out.push(RichEvent::Cmark(MdEvent::Text(rest), o, end));
                assert(rich_view(out@) =~= out0.push(ev));
                r = t.len();
            },
            Some(k) => {
                let o1 = advance(o, t, r, k);
                if k > r {
                    let pre = string_of_range(t, r, k);
                    let ghost ev = text_ev(pre@, o, o1);
                    out.push(RichEvent::Cmark(MdEvent::Text(pre), o, o1));
                    assert(rich_view(out@) =~= out0.push(ev));
                }
                let ghost out1 = rich_view(out@);
                let o2 = if o1 < usize::MAX {
                    o1 + 1
                } else {
                    usize::MAX
                };
                assert(o2 == sat_add(o1, 1));
                out.push(RichEvent::Cmark(MdEvent::SoftBreak, o1, o2));
                assert(rich_view(out@) =~= out1.push(RichV::Cmark(MdEventV::SoftBreak, o1, o2)));
                r = k + 1;
                o = o2;
            },
        }
    }
    out
}

/// Pass 4.
fn split_breaks(p: Vec<RichEvent>) -> (r: Vec<RichEvent>)
    ensures
        rich_view(r@) == split_from(rich_view(p@), 0, Seq::empty()),
{
    let ghost pv = rich_view(p@);
    let n = p.len();
    let mut rev = into_reversed(p);
    let mut out: Vec<RichEvent> = Vec::new();
    let mut i: usize = 0;
    assert(rich_view(out@) =~= Seq::empty());
    while i < n
        invariant
            i <= n,
            pv.len() == n,
            rev@.len() == n - i,
            forall|k: int| 0 <= k < rev@.len() ==> #[trigger] rev@[k]@ == pv[n - 1 - k],
            split_from(pv, 0, Seq::empty()) == split_from(pv, i as int, rich_view(out@)),
        decreases n - i,
    {
        let e = rev.pop().unwrap();
        assert(e@ == pv[i as int]);
        let ghost out0 = rich_view(out@);
        let ghost ev = e@;
        let pieces = match &e {
            RichEvent::Cmark(MdEvent::Text(t), a, _) => {
                let c = str_chars(t.as_str());
                proof {
                    lemma_find_char_from(c@, 0, '\n');
                }
                match find_char(c.as_slice(), 0, '\n') {
                    Some(_) => Some(split_text(c.as_slice(), *a)),
                    None => None,
                }
            },
            _ => None,
        };
        match pieces {
            Some(mut w) => {
                let ghost wv = rich_view(w@);
                out.append(&mut w);
                assert(rich_view(out@) =~= out0 + wv);
                assert(split_one(ev) == wv);
            },
            None => {
                out.push(e);
                assert(rich_view(out@) =~= out0 + split_one(ev));
            },
        }
        i = i + 1;
    }
    out
}

/// Rewrites a CommonMark event stream into the enriched stream: adjacent
/// text is joined, inline widgets are cut out of the text, a `{...}`
/// suffix after a link or image becomes its attributes, and the soft
/// breaks within a text become soft-break events again.
pub fn transform_events(events: Vec<CmarkEvent>) -> (r: Vec<RichEvent>)
    ensures
        rich_view(r@) == transform_spec(cm_view(events@)),
{
    let p1 = coalesce(events);
    let p2 = expand(p1);
    let p3 = absorb(p2);
    split_breaks(p3)
}

} // verus!
