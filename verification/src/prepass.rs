//! The directive pre-pass: `:::name` blocks are cut out of the source into a
//! side table of directive nodes, and their lines are blanked out so that the
//! CommonMark parse sees neither them nor their bodies.
use vstd::prelude::*;
use crate::ast::{build_ast, directives_view, range_node};
use crate::ast_spec::{build_ast_spec, range_json, typed};
use crate::attrs::{info_attrs, info_name, parse_fence_info};
use crate::cmark::{cm_view, cmark_events, cmark_parse, CmarkEvent};
use crate::config::{markplus_options, parser_options};
use crate::json_value::{jstr, push_member, view_items, view_members, Json, JsonV};
use crate::text::{
    byte_len, lemma_byte_len_bounds, lemma_byte_len_concat, lemma_byte_len_push,
    slice_vec, str_byte_len, str_chars, string_from_chars, string_of_range, trim_end, trim_end_len};
use crate::transform::{transform_events, transform_spec};
use crate::event_filter::{lemma_line_end, line_end, line_end_at};
use crate::widgets::advance;

verus! {

/// `n` spaces.
pub open spec fn spaces(n: nat) -> Seq<char> {
    Seq::new(n, |_i: int| ' ')
}

/// `line` with every byte but its line ending (`\n` or `\r\n`) replaced by
/// a space.
pub open spec fn mask_spec(line: Seq<char>) -> Seq<char> {
    let n = byte_len(line);
    if line.len() >= 2 && line[line.len() - 2] == '\r' && line[line.len() - 1] == '\n' {
        spaces((n - 2) as nat) + seq!['\r', '\n']
    } else if line.len() >= 1 && line[line.len() - 1] == '\n' {
        spaces((n - 1) as nat) + seq!['\n']
    } else {
        spaces(n)
    }
}

pub proof fn lemma_spaces_bytes(n: nat)
    ensures
        byte_len(spaces(n)) == n,
    decreases n,
{
    if n > 0 {
        lemma_spaces_bytes((n - 1) as nat);
        assert(spaces(n).drop_last() =~= spaces((n - 1) as nat));
    }
}

/// Masking keeps the byte length of a line, so every byte offset into the
/// masked text points at the same place as in the source.
pub proof fn lemma_mask_keeps_bytes(line: Seq<char>)
    ensures
        byte_len(mask_spec(line)) == byte_len(line),
{
    let n = byte_len(line);
    lemma_byte_len_bounds(line);
    if line.len() >= 2 && line[line.len() - 2] == '\r' && line[line.len() - 1] == '\n' {
        let p = line.subrange(0, line.len() - 2);
        assert(line =~= p + seq!['\r', '\n']);
        lemma_byte_len_concat(p, seq!['\r', '\n']);
        lemma_byte_len_push(seq!['\r'], '\n');
        assert(seq!['\r'].push('\n') =~= seq!['\r', '\n']);
        lemma_byte_len_push(Seq::<char>::empty(), '\r');
        assert(Seq::<char>::empty().push('\r') =~= seq!['\r']);
        lemma_spaces_bytes((n - 2) as nat);
        lemma_byte_len_concat(spaces((n - 2) as nat), seq!['\r', '\n']);
    } else if line.len() >= 1 && line[line.len() - 1] == '\n' {
        let p = line.drop_last();
        assert(line =~= p.push('\n'));
        lemma_byte_len_push(p, '\n');
        lemma_spaces_bytes((n - 1) as nat);
        assert(spaces((n - 1) as nat) + seq!['\n'] =~= spaces((n - 1) as nat).push('\n'));
        lemma_byte_len_push(spaces((n - 1) as nat), '\n');
    } else {
        lemma_spaces_bytes(n);
    }
}

/// Appends the masked form of `c[a..e]`, whose byte length is `nbytes`.
fn push_masked(masked: &mut Vec<char>, c: &[char], a: usize, e: usize, nbytes: usize)
    requires
        a <= e <= c.len(),
        nbytes == byte_len(c@.subrange(a as int, e as int)),
    ensures
        final(masked)@ == old(masked)@ + mask_spec(c@.subrange(a as int, e as int)),
{
    let ghost line = c@.subrange(a as int, e as int);
    proof {
        lemma_byte_len_bounds(line);
    }
    let len = e - a;
    let tail: usize = if len >= 2 && c[e - 2] == '\r' && c[e - 1] == '\n' {
        2
    } else if len >= 1 && c[e - 1] == '\n' {
        1
    } else {
        0
    };
    let k = nbytes - tail;
    let ghost m0 = masked@;
    let mut j: usize = 0;
    while j < k
        invariant
            j <= k,
            masked@ == m0 + spaces(j as nat),
        decreases k - j,
    {
        masked.push(' ');
        assert(masked@ =~= m0 + spaces((j + 1) as nat));
        j = j + 1;
    }
    let mut t: usize = e - tail;
    while t < e
        invariant
            a <= e <= c.len(),
            tail <= e - a,
            e - tail <= t <= e,
            masked@ == m0 + spaces(k as nat) + c@.subrange(e - tail, t as int),
        decreases e - t,
    {
        masked.push(c[t]);
        assert(masked@ =~= m0 + spaces(k as nat) + c@.subrange(e - tail, t + 1));
        t = t + 1;
    }
    proof {
        if tail == 2 {
            assert(c@.subrange(e - 2, e as int) =~= seq!['\r', '\n']);
        } else if tail == 1 {
            assert(c@.subrange(e - 1, e as int) =~= seq!['\n']);
        } else {
            assert(c@.subrange(e as int, e as int) =~= Seq::<char>::empty());
        }
        assert(masked@ =~= m0 + mask_spec(line));
    }
}

/// Replaces every byte of `line` but its line ending with a space, so that
/// the result has the byte length of `line`.
pub fn mask_line(line: &str) -> (r: String)
    ensures
        r@ == mask_spec(line@),
        byte_len(r@) == byte_len(line@),
{
    let c = str_chars(line);
    let n = str_byte_len(line);
    let mut m: Vec<char> = Vec::new();
    proof {
        assert(c@.subrange(0, c@.len() as int) =~= c@);
    }
    push_masked(&mut m, &c, 0, c.len(), n);
    proof {
        assert(m@ =~= mask_spec(line@));
        lemma_mask_keeps_bytes(line@);
    }
    string_from_chars(&m)
}

/// Parses `raw` as CommonMark with this crate's option set.
pub fn parse(raw: &str) -> (r: Vec<CmarkEvent>)
    ensures
        cm_view(r@) == cmark_events(raw@, markplus_options()),
{
    cmark_parse(raw, &parser_options())
}

/// The number of leading `c` characters of `t`.
pub open spec fn run_len(t: Seq<char>, c: char) -> nat
    decreases t.len(),
{
    if t.len() > 0 && t[0] == c {
        1 + run_len(t.drop_first(), c)
    } else {
        0
    }
}

pub proof fn lemma_run_len(t: Seq<char>, c: char)
    ensures
        run_len(t, c) <= t.len(),
        forall|j: int| 0 <= j < run_len(t, c) ==> #[trigger] t[j] == c,
        run_len(t, c) < t.len() ==> t[run_len(t, c) as int] != c,
    decreases t.len(),
{
    if t.len() > 0 && t[0] == c {
        lemma_run_len(t.drop_first(), c);
        assert forall|j: int| 0 <= j < run_len(t, c) implies #[trigger] t[j] == c by {
            if j > 0 {
                assert(t[j] == t.drop_first()[j - 1]);
            }
        }
    }
}

/// The byte offset of the character index `k` of `s`.
pub open spec fn byte_at(s: Seq<char>, k: int) -> usize {
    byte_len(s.subrange(0, k)) as usize
}

/// A directive that is open: where its opening line starts, its name and
/// attributes, where its body starts, and how long the masked text was when
/// it opened (all positions are character indices).
pub struct OpenDirectiveV {
    pub start: int,
    pub name: Seq<char>,
    pub attrs: Seq<(Seq<char>, JsonV)>,
    pub body: int,
    pub mask_len: int,
}

/// The state of the directive pre-pass between two lines.
pub struct PrepassV {
    pub masked: Seq<char>,
    pub directives: Seq<(usize, JsonV)>,
    pub stack: Seq<OpenDirectiveV>,
    pub in_fenced: bool,
    pub fence_char: char,
    pub fence_len: nat,
}

pub open spec fn prepass_init() -> PrepassV {
    PrepassV {
        masked: Seq::empty(),
        directives: Seq::empty(),
        stack: Seq::empty(),
        in_fenced: false,
        fence_char: '`',
        fence_len: 0,
    }
}

/// Whether `t` starts with three `c`.
pub open spec fn starts3(t: Seq<char>, c: char) -> bool {
    t.len() >= 3 && t[0] == c && t[1] == c && t[2] == c
}

/// The fenced-code guard `(in_fenced, fence_char, fence_len)` after a
/// line with `indent` leading spaces and the rest `t`: a line with fewer
/// than four spaces of indent that starts with three backticks or tildes
/// opens a fence, and one that starts with at least as many fence
/// characters closes it.
pub open spec fn fence_state(fs: (bool, char, nat), indent: nat, t: Seq<char>) -> (bool, char, nat) {
    if indent < 4 {
        if !fs.0 {
            if starts3(t, '`') || starts3(t, '~') {
                (true, t[0], run_len(t, t[0]))
            } else {
                fs
            }
        } else if t.len() > 0 && t[0] == fs.1 && run_len(t, fs.1) >= fs.2 {
            (false, fs.1, fs.2)
        } else {
            fs
        }
    } else {
        fs
    }
}

pub open spec fn fence_step(st: PrepassV, indent: nat, t: Seq<char>) -> PrepassV {
    let fs = fence_state((st.in_fenced, st.fence_char, st.fence_len), indent, t);
    PrepassV { in_fenced: fs.0, fence_char: fs.1, fence_len: fs.2, ..st }
}

/// The node of a closed directive.
pub open spec fn directive_node_spec(
    name: Seq<char>,
    attrs: Seq<(Seq<char>, JsonV)>,
    children: Seq<JsonV>,
    start: usize,
    end: usize,
) -> JsonV {
    JsonV::Object(
        seq![
            ("t"@, JsonV::Str("directive"@)),
            ("name"@, JsonV::Str(name)),
            ("attrs"@, JsonV::Object(attrs)),
            ("children"@, JsonV::Array(children)),
            ("range"@, range_json(start, end)),
        ],
    )
}

/// The AST of a masked text and its directive table.
pub open spec fn masked_ast(dp: (Seq<char>, Seq<(usize, JsonV)>)) -> Seq<JsonV> {
    build_ast_spec(transform_spec(cmark_events(dp.0, markplus_options())), dp.1)
}

/// The pre-pass over the line `s[a..e]`.
pub open spec fn line_step(s: Seq<char>, a: int, e: int, st: PrepassV) -> PrepassV
    decreases s.len(), s.len() - a,
{
    let line = s.subrange(a, e);
    let indent = run_len(line, ' ');
    let t = line.subrange(indent as int, line.len() as int);
    let st1 = fence_step(st, indent, t);
    let is_dir = !st1.in_fenced && indent < 4 && starts3(t, ':');
    let rest = t.subrange(3, t.len() as int);
    let is_close = trim_end(rest).len() == 0 || (rest.len() > 0 && rest[0] == '/');
    let masked_line = st1.masked + mask_spec(line);
    let plain_line = st1.masked + line;
    if is_dir && is_close && st1.stack.len() > 0 {
        let f = st1.stack.last();
        let stack = st1.stack.drop_last();
        let directives = if stack.len() == 0 && 0 < f.body <= a <= s.len() {
            let dp = directive_spec(s.subrange(f.body, a));
            st1.directives.push(
                (
                    byte_at(s, f.start),
                    directive_node_spec(
                        f.name,
                        f.attrs,
                        masked_ast(dp),
                        byte_at(s, f.start),
                        byte_at(s, e),
                    ),
                ),
            )
        } else {
            st1.directives
        };
        PrepassV { masked: masked_line, directives, stack, ..st1 }
    } else if is_dir && !is_close {
        let info = trim_end(rest);
        let stack = if info.len() > 0 && info_name(info).len() > 0 {
            st1.stack.push(
                OpenDirectiveV {
                    start: a,
                    name: info_name(info),
                    attrs: info_attrs(info),
                    body: e,
                    mask_len: st1.masked.len() as int,
                },
            )
        } else {
            st1.stack
        };
        PrepassV {
            masked: if stack.len() > 0 {
                masked_line
            } else {
                plain_line
            },
            stack,
            ..st1
        }
    } else {
        PrepassV {
            masked: if st1.stack.len() > 0 {
                masked_line
            } else {
                plain_line
            },
            ..st1
        }
    }
}

/// The pre-pass over the lines of `s` from the character index `i` on.
pub open spec fn prepass_from(s: Seq<char>, i: int, st: PrepassV) -> PrepassV
    decreases s.len(), s.len() - i + 1,
{
    if i < 0 || i >= s.len() {
        st
    } else {
        let e = line_end(s, i);
        if e <= i || e > s.len() {
            st
        } else {
            prepass_from(s, e, line_step(s, i, e, st))
        }
    }
}

/// The masked text and the directive table of `s`. A directive left open
/// at the end is not one: from its opening line on, the text is kept as
/// it stands.
pub open spec fn directive_spec(s: Seq<char>) -> (Seq<char>, Seq<(usize, JsonV)>)
    decreases s.len(), s.len() + 2,
{
    let st = prepass_from(s, 0, prepass_init());
    if st.stack.len() > 0 && 0 <= st.stack[0].mask_len <= st.masked.len() && 0 <= st.stack[0].start
        <= s.len() {
        (
            st.masked.subrange(0, st.stack[0].mask_len) + s.subrange(
                st.stack[0].start,
                s.len() as int,
            ),
            st.directives,
        )
    } else {
        (st.masked, st.directives)
    }
}

/// `from` plus the number of `ch` characters that `s[from..to]` starts with.
pub(crate) fn run_len_at(s: &[char], from: usize, to: usize, ch: char) -> (r: usize)
    requires
        from <= to <= s.len(),
    ensures
        r == from + run_len(s@.subrange(from as int, to as int), ch),
        r <= to,
{
    let mut k = from;
    while k < to && s[k] == ch
        invariant
            from <= k <= to <= s.len(),
            run_len(s@.subrange(from as int, to as int), ch) == (k - from) + run_len(
                s@.subrange(k as int, to as int),
                ch,
            ),
        decreases to - k,
    {
        assert(s@.subrange(k as int, to as int).drop_first() =~= s@.subrange(k + 1, to as int));
        k = k + 1;
    }
    k
}

/// The fenced-code guard after the line whose text after its indent is `s[ts..e]`.
fn fence_update(
    s: &[char],
    ts: usize,
    e: usize,
    indent: usize,
    fs: (bool, char, usize),
) -> (r: (bool, char, usize))
    requires
        ts <= e <= s.len(),
    ensures
        (r.0, r.1, r.2 as nat) == fence_state(
            (fs.0, fs.1, fs.2 as nat),
            indent as nat,
            s@.subrange(ts as int, e as int),
        ),
{
    let ghost t = s@.subrange(ts as int, e as int);
    if indent < 4 {
        if !fs.0 {
            if e - ts >= 3 && ((s[ts] == '`' && s[ts + 1] == '`' && s[ts + 2] == '`') || (s[ts]
                == '~' && s[ts + 1] == '~' && s[ts + 2] == '~')) {
                let fc = s[ts];
                let k = run_len_at(s, ts, e, fc);
                (true, fc, k - ts)
            } else {
                fs
            }
        } else if e > ts && s[ts] == fs.1 {
            let k = run_len_at(s, ts, e, fs.1);
            if k - ts >= fs.2 {
                (false, fs.1, fs.2)
            } else {
                fs
            }
        } else {
            fs
        }
    } else {
        fs
    }
}

/// The node of a closed directive.
fn directive_node(
    name: String,
    attrs: Vec<(String, Json)>,
    children: Vec<Json>,
    start: usize,
    end: usize,
) -> (r: Json)
    ensures
        r@ == directive_node_spec(name@, view_members(attrs@), view_items(children@), start, end),
{
    let mut m: Vec<(String, Json)> = Vec::new();
    proof {
        assert(view_members(m@) =~= Seq::empty());
    }
    push_member(&mut m, "t", jstr("directive"));
    push_member(&mut m, "name", Json::Str(name));
    push_member(&mut m, "attrs", Json::Object(attrs));
    push_member(&mut m, "children", Json::Array(children));
    push_member(&mut m, "range", range_node(start, end));
    proof {
        assert(view_members(m@) =~= seq![
            ("t"@, JsonV::Str("directive"@)),
            ("name"@, JsonV::Str(name@)),
            ("attrs"@, JsonV::Object(view_members(attrs@))),
            ("children"@, JsonV::Array(view_items(children@))),
            ("range"@, range_json(start, end)),
        ]);
    }
    Json::Object(m)
}

/// Appends `c[a..e]`.
fn push_range(out: &mut Vec<char>, c: &[char], a: usize, e: usize)
    requires
        a <= e <= c.len(),
    ensures
        final(out)@ == old(out)@ + c@.subrange(a as int, e as int),
{
    let ghost o0 = out@;
    let mut k = a;
    while k < e
        invariant
            a <= k <= e <= c.len(),
            out@ == o0 + c@.subrange(a as int, k as int),
        decreases e - k,
    {
        out.push(c[k]);
        assert(out@ =~= o0 + c@.subrange(a as int, k + 1));
        k = k + 1;
    }
}

/// An open directive, with the byte offset of its opening line.
struct OpenDirective {
    start: usize,
    start_byte: usize,
    name: String,
    attrs: Vec<(String, Json)>,
    body: usize,
    mask_len: usize,
}

spec fn open_view(f: OpenDirective) -> OpenDirectiveV {
    OpenDirectiveV {
        start: f.start as int,
        name: f.name@,
        attrs: view_members(f.attrs@),
        body: f.body as int,
        mask_len: f.mask_len as int,
    }
}

spec fn opens_view(s: Seq<OpenDirective>) -> Seq<OpenDirectiveV> {
    s.map_values(|f: OpenDirective| open_view(f))
}

spec fn state_view(
    masked: Seq<char>,
    dirs: Seq<(usize, Json)>,
    stack: Seq<OpenDirective>,
    fs: (bool, char, usize),
) -> PrepassV {
    PrepassV {
        masked,
        directives: directives_view(dirs),
        stack: opens_view(stack),
        in_fenced: fs.0,
        fence_char: fs.1,
        fence_len: fs.2 as nat,
    }
}

/// Whether the open directives are well placed before the line starting at
/// `a`: each opened on an earlier line, at a recorded byte offset, after
/// `mask_len` characters of masked text.
spec fn stack_ok(c: Seq<char>, stack: Seq<OpenDirective>, masked_len: int, a: int) -> bool {
    forall|k: int|
        0 <= k < stack.len() ==> 0 <= (#[trigger] stack[k]).start < stack[k].body <= a
            && stack[k].mask_len <= masked_len && stack[k].start_byte == byte_at(
            c,
            stack[k].start as int,
        )
}

/// The AST of the body `c[from..to]` of a directive.
fn directive_children(c: &Vec<char>, from: usize, to: usize) -> (r: Vec<Json>)
    requires
        0 < from <= to <= c.len(),
    ensures
        view_items(r@) == masked_ast(directive_spec(c@.subrange(from as int, to as int))),
    decreases to - from, 3nat,
{
    let body = string_of_range(c.as_slice(), from, to);
    let (im, idirs) = directive_prepass(body.as_str());
    let ev = parse(im.as_str());
    let rich = transform_events(ev);
    build_ast(rich, idirs)
}

/// The pre-pass over the line `c[a..e]`.
#[verifier::rlimit(30)]
fn prepass_line(
    c: &Vec<char>,
    a: usize,
    e: usize,
    off: usize,
    nbytes: usize,
    masked: &mut Vec<char>,
    dirs: &mut Vec<(usize, Json)>,
    stack: &mut Vec<OpenDirective>,
    fs: &mut (bool, char, usize),
)
    requires
        a < e <= c.len(),
        e == line_end(c@, a as int),
        off == byte_len(c@.subrange(0, a as int)),
        nbytes == byte_len(c@.subrange(a as int, e as int)),
        off + nbytes <= usize::MAX,
        stack_ok(c@, old(stack)@, old(masked)@.len() as int, a as int),
    ensures
        state_view(final(masked)@, final(dirs)@, final(stack)@, *final(fs)) == line_step(
            c@,
            a as int,
            e as int,
            state_view(old(masked)@, old(dirs)@, old(stack)@, *old(fs)),
        ),
        stack_ok(c@, final(stack)@, final(masked)@.len() as int, e as int),
    decreases c@.len(), 1nat,
{
    let ghost st = state_view(masked@, dirs@, stack@, *fs);
    let ghost line = c@.subrange(a as int, e as int);
    let ts = run_len_at(c.as_slice(), a, e, ' ');
    let indent = ts - a;
    let ghost t = line.subrange(indent as int, line.len() as int);
    assert(t =~= c@.subrange(ts as int, e as int));
    *fs = fence_update(c.as_slice(), ts, e, indent, *fs);
    let ghost st1 = fence_step(st, indent as nat, t);
    assert(state_view(masked@, dirs@, stack@, *fs) == st1);
    let is_dir = !fs.0 && indent < 4 && e - ts >= 3 && c[ts] == ':' && c[ts + 1] == ':' && c[ts
        + 2] == ':';
    assert(is_dir == (!st1.in_fenced && indent < 4 && starts3(t, ':')));
    if is_dir {
        let rest = slice_vec(c.as_slice(), ts + 3, e);
        assert(rest@ =~= t.subrange(3, t.len() as int));
        let tl = trim_end_len(rest.as_slice(), rest.len());
        assert(rest@.subrange(0, rest@.len() as int) =~= rest@);
        let is_close = tl == 0 || (rest.len() > 0 && rest[0] == '/');
        if is_close && stack.len() > 0 {
            let f = stack.pop().unwrap();
            assert(opens_view(stack@) =~= st1.stack.drop_last());
            assert(open_view(f) == st1.stack.last());
            if stack.len() == 0 {
                let kids = directive_children(c, f.body, a);
                let end = off + nbytes;
                proof {
                    lemma_byte_len_concat(c@.subrange(0, a as int), line);
                    assert(c@.subrange(0, e as int) =~= c@.subrange(0, a as int) + line);
                }
                let node = directive_node(f.name, f.attrs, kids, f.start_byte, end);
                let ghost d0 = dirs@;
                dirs.push((f.start_byte, node));
                assert(directives_view(dirs@) =~= directives_view(d0).push((f.start_byte, node@)));
            }
            push_masked(masked, c.as_slice(), a, e, nbytes);
        } else if !is_close {
            let info = string_of_range(rest.as_slice(), 0, tl);
            assert(info@ == trim_end(rest@));
            if tl > 0 {
                let (name, attrs) = parse_fence_info(info.as_str());
                if !name.as_str().is_empty() {
                    let ml = masked.len();
                    let ghost s0 = stack@;
                    stack.push(
                        OpenDirective { start: a, start_byte: off, name, attrs, body: e, mask_len: ml },
                    );
                    assert(opens_view(stack@) =~= opens_view(s0).push(
                        OpenDirectiveV {
                            start: a as int,
                            name: info_name(info@),
                            attrs: info_attrs(info@),
                            body: e as int,
                            mask_len: ml as int,
                        },
                    ));
                }
            }
            if stack.len() > 0 {
                push_masked(masked, c.as_slice(), a, e, nbytes);
            } else {
                push_range(masked, c.as_slice(), a, e);
            }
        } else {
            push_range(masked, c.as_slice(), a, e);
        }
    } else {
        if stack.len() > 0 {
            push_masked(masked, c.as_slice(), a, e, nbytes);
        } else {
            push_range(masked, c.as_slice(), a, e);
        }
    }
}

/// Cuts the `:::name ... :::` directive blocks out of `src`: returns the
/// source with the directive lines and bodies blanked out (byte for byte)
/// and the table of top-level directive nodes, each with the byte offset
/// where it starts. Fenced code is left alone, directives nest, and a
/// directive that is never closed leaves the text from its opening line on
/// as it stands.
pub fn directive_prepass(src: &str) -> (r: (String, Vec<(usize, Json)>))
    ensures
        (r.0@, directives_view(r.1@)) == directive_spec(src@),
    decreases src@.len(), 2nat,
{
    let c = str_chars(src);
    let total = str_byte_len(src);
    let n = c.len();
    let mut masked: Vec<char> = Vec::new();
    let mut dirs: Vec<(usize, Json)> = Vec::new();
    let mut stack: Vec<OpenDirective> = Vec::new();
    let mut fs: (bool, char, usize) = (false, '`', 0);
    let mut a: usize = 0;
    let mut off: usize = 0;
    proof {
        assert(c@.subrange(0, 0) =~= Seq::<char>::empty());
        assert(directives_view(dirs@) =~= Seq::empty());
        assert(opens_view(stack@) =~= Seq::empty());
        assert(state_view(masked@, dirs@, stack@, fs) == prepass_init());
    }
    while a < n
        invariant
            c@ == src@,
            n == c.len(),
            total == byte_len(c@),
            a <= n,
            off == byte_len(c@.subrange(0, a as int)),
            prepass_from(c@, 0, prepass_init()) == prepass_from(
                c@,
                a as int,
                state_view(masked@, dirs@, stack@, fs),
            ),
            stack_ok(c@, stack@, masked@.len() as int, a as int),
        decreases n - a,
    {
        let e = line_end_at(c.as_slice(), a);
        let ghost line = c@.subrange(a as int, e as int);
        proof {
            lemma_byte_len_concat(c@.subrange(0, a as int), line);
            assert(c@.subrange(0, e as int) =~= c@.subrange(0, a as int) + line);
            lemma_byte_len_concat(c@.subrange(0, e as int), c@.subrange(e as int, n as int));
            assert(c@ =~= c@.subrange(0, e as int) + c@.subrange(e as int, n as int));
        }
        let nbytes = advance(0, c.as_slice(), a, e);
        prepass_line(&c, a, e, off, nbytes, &mut masked, &mut dirs, &mut stack, &mut fs);
        off = off + nbytes;
        a = e;
    }
    if stack.len() > 0 {
        let first = stack[0].start;
        let ml = stack[0].mask_len;
        masked.truncate(ml);
        push_range(&mut masked, c.as_slice(), first, n);
    }
    (string_from_chars(&masked), dirs)
}

/// The masked text so far has the byte length of the lines read so far,
/// and each open directive recorded how much of it stood before its line.
pub open spec fn prepass_inv(s: Seq<char>, i: int, st: PrepassV) -> bool {
    &&& 0 <= i <= s.len()
    &&& byte_len(st.masked) == byte_len(s.subrange(0, i))
    &&& forall|k: int|
        0 <= k < st.stack.len() ==> {
            let f = #[trigger] st.stack[k];
            &&& 0 <= f.start <= i
            &&& 0 <= f.mask_len <= st.masked.len()
            &&& byte_len(st.masked.subrange(0, f.mask_len)) == byte_len(s.subrange(0, f.start))
        }
}

proof fn lemma_line_step_inv(s: Seq<char>, a: int, e: int, st: PrepassV)
    requires
        prepass_inv(s, a, st),
        a < e <= s.len(),
    ensures
        prepass_inv(s, e, line_step(s, a, e, st)),
{
    let line = s.subrange(a, e);
    let r = line_step(s, a, e, st);
    lemma_byte_len_concat(s.subrange(0, a), line);
    assert(s.subrange(0, e) =~= s.subrange(0, a) + line);
    lemma_mask_keeps_bytes(line);
    lemma_byte_len_concat(st.masked, mask_spec(line));
    lemma_byte_len_concat(st.masked, line);
    assert(r.masked == st.masked + mask_spec(line) || r.masked == st.masked + line);
    assert(byte_len(r.masked) == byte_len(s.subrange(0, e)));
    assert forall|k: int| 0 <= k < r.stack.len() implies {
        let f = #[trigger] r.stack[k];
        &&& 0 <= f.start <= e
        &&& 0 <= f.mask_len <= r.masked.len()
        &&& byte_len(r.masked.subrange(0, f.mask_len)) == byte_len(s.subrange(0, f.start))
    } by {
        let f = r.stack[k];
        if k < st.stack.len() && f == st.stack[k] {
            assert(r.masked.subrange(0, f.mask_len) =~= st.masked.subrange(0, f.mask_len));
        } else {
            assert(f.start == a && f.mask_len == st.masked.len());
            assert(r.masked.subrange(0, f.mask_len) =~= st.masked);
            assert(st.masked.subrange(0, st.masked.len() as int) =~= st.masked);
        }
    }
}

proof fn lemma_prepass_inv(s: Seq<char>, i: int, st: PrepassV)
    requires
        prepass_inv(s, i, st),
    ensures
        prepass_inv(s, s.len() as int, prepass_from(s, i, st)),
    decreases s.len() - i,
{
    if i < s.len() {
        lemma_line_end(s, i);
        let e = line_end(s, i);
        lemma_line_step_inv(s, i, e, st);
        lemma_prepass_inv(s, e, line_step(s, i, e, st));
    }
}

/// The masked text of the directive pre-pass has the byte length of its
/// source, so every byte offset into it points at the same place in the
/// source.
pub proof fn lemma_directive_mask_keeps_offsets(s: Seq<char>)
    ensures
        byte_len(directive_spec(s).0) == byte_len(s),
{
    assert(s.subrange(0, 0) =~= Seq::<char>::empty());
    assert(prepass_init().masked =~= Seq::<char>::empty());
    lemma_prepass_inv(s, 0, prepass_init());
    let st = prepass_from(s, 0, prepass_init());
    assert(s.subrange(0, s.len() as int) =~= s);
    if st.stack.len() > 0 {
        let f = st.stack[0];
        lemma_byte_len_concat(st.masked.subrange(0, f.mask_len), s.subrange(f.start, s.len() as int));
        lemma_byte_len_concat(s.subrange(0, f.start), s.subrange(f.start, s.len() as int));
        assert(s =~= s.subrange(0, f.start) + s.subrange(f.start, s.len() as int));
    }
}

/// Whether every entry of a directive table is a node.
pub open spec fn directives_typed(d: Seq<(usize, JsonV)>) -> bool {
    forall|i: int| 0 <= i < d.len() ==> typed(#[trigger] d[i].1)
}

proof fn lemma_prepass_typed(s: Seq<char>, i: int, st: PrepassV)
    requires
        directives_typed(st.directives),
    ensures
        directives_typed(prepass_from(s, i, st).directives),
    decreases s.len() - i,
{
    if 0 <= i < s.len() {
        let e = line_end(s, i);
        if i < e <= s.len() {
            let r = line_step(s, i, e, st);
            assert(directives_typed(r.directives)) by {
                assert forall|k: int| 0 <= k < r.directives.len() implies typed(#[trigger] r.directives[k].1) by {
                    if k < st.directives.len() {
                        assert(r.directives[k] == st.directives[k]);
                    }
                }
            }
            lemma_prepass_typed(s, e, r);
        }
    }
}

/// Every entry of the directive table is a node with a string type `t`.
pub proof fn lemma_directives_typed(s: Seq<char>)
    ensures
        directives_typed(directive_spec(s).1),
{
    lemma_prepass_typed(s, 0, prepass_init());
}

/// Byte offsets grow with character positions in a text that a `str` can hold.
proof fn lemma_byte_at_increases(s: Seq<char>, j: int, k: int)
    requires
        0 <= j < k <= s.len(),
        byte_len(s) <= usize::MAX,
    ensures
        byte_at(s, j) < byte_at(s, k),
        byte_at(s, k) as int == byte_len(s.subrange(0, k)),
{
    lemma_byte_len_concat(s.subrange(0, j), s.subrange(j, k));
    assert(s.subrange(0, k) =~= s.subrange(0, j) + s.subrange(j, k));
    lemma_byte_len_bounds(s.subrange(j, k));
    lemma_byte_len_concat(s.subrange(0, k), s.subrange(k, s.len() as int));
    assert(s =~= s.subrange(0, k) + s.subrange(k, s.len() as int));
}

/// The directive table so far is in source order and stands before line
/// `i`, and before the outermost open directive; every open directive
/// opened on an earlier line.
pub open spec fn order_inv(s: Seq<char>, i: int, st: PrepassV) -> bool {
    let d = st.directives;
    &&& 0 <= i <= s.len()
    &&& forall|p: int, q: int| 0 <= p < q < d.len() ==> d[p].0 < d[q].0
    &&& forall|p: int| 0 <= p < d.len() ==> d[p].0 < byte_at(s, i)
    &&& st.stack.len() > 0 ==> forall|p: int| 0 <= p < d.len() ==> d[p].0 < byte_at(s, st.stack[0].start)
    &&& forall|k: int| 0 <= k < st.stack.len() ==> 0 <= #[trigger] st.stack[k].start < i
}

proof fn lemma_line_step_order(s: Seq<char>, a: int, e: int, st: PrepassV)
    requires
        order_inv(s, a, st),
        a < e <= s.len(),
        byte_len(s) <= usize::MAX,
    ensures
        order_inv(s, e, line_step(s, a, e, st)),
{
    let r = line_step(s, a, e, st);
    let d = st.directives;
    lemma_byte_at_increases(s, a, e);
    assert forall|p: int| 0 <= p < d.len() implies d[p].0 < byte_at(s, e) by {}
    if r.directives.len() > d.len() {
        let f = st.stack.last();
        assert(st.stack.len() == 1);
        assert(f == st.stack[0]);
        assert(0 <= f.start < a);
        lemma_byte_at_increases(s, f.start, e);
        assert(r.directives == d.push((byte_at(s, f.start), r.directives.last().1)));
        assert forall|p: int, q: int| 0 <= p < q < r.directives.len() implies r.directives[p].0
            < r.directives[q].0 by {
            if q < d.len() {
                assert(r.directives[p] == d[p] && r.directives[q] == d[q]);
            } else {
                assert(r.directives[p] == d[p]);
            }
        }
        assert forall|p: int| 0 <= p < r.directives.len() implies r.directives[p].0 < byte_at(s, e) by {
            if p < d.len() {
                assert(r.directives[p] == d[p]);
            }
        }
    } else {
        assert(r.directives == d);
    }
    assert forall|k: int| 0 <= k < r.stack.len() implies 0 <= #[trigger] r.stack[k].start < e by {
        if k < st.stack.len() && r.stack[k] == st.stack[k] {
        } else {
            assert(r.stack[k].start == a);
        }
    }
    if r.stack.len() > 0 {
        if st.stack.len() > 0 {
            assert(r.stack[0] == st.stack[0]);
        } else {
            assert(r.stack[0].start == a);
        }
    }
}

proof fn lemma_prepass_order(s: Seq<char>, i: int, st: PrepassV)
    requires
        order_inv(s, i, st),
        byte_len(s) <= usize::MAX,
    ensures
        order_inv(s, s.len() as int, prepass_from(s, i, st)),
    decreases s.len() - i,
{
    if i < s.len() {
        lemma_line_end(s, i);
        let e = line_end(s, i);
        lemma_line_step_order(s, i, e, st);
        lemma_prepass_order(s, e, line_step(s, i, e, st));
    }
}

/// The directive table lists the outermost directives in the order in
/// which they stand in the source: their start offsets strictly increase,
/// and each is a byte offset into the source.
pub proof fn lemma_directives_in_order(s: Seq<char>)
    requires
        byte_len(s) <= usize::MAX,
    ensures
        forall|p: int, q: int|
            0 <= p < q < directive_spec(s).1.len() ==> directive_spec(s).1[p].0 < directive_spec(s).1[q].0,
        forall|p: int| 0 <= p < directive_spec(s).1.len() ==> directive_spec(s).1[p].0 < byte_len(s),
{
    lemma_prepass_order(s, 0, prepass_init());
    assert(s.subrange(0, s.len() as int) =~= s);
}

} // verus!
