//! Pre-passes and event stream transformations.
//!
//! 1. [`frontmatter_prepass`]: splits a leading `---` YAML block off the source.
//! 2. [`crate::prepass::directive_prepass`]: turns `:::name` blocks into
//!    side-table nodes and blanks their lines out of the source.
//! 3. [`crate::prepass::parse`]: the CommonMark parse of the blanked source.
//! 4. [`crate::transform::transform_events`]: inline widgets and `{key=val}`
//!    link/image attributes.
//!
//! This module holds the first step and the enriched event type.
use vstd::prelude::*;
use crate::cmark::{MdEvent, MdEventV};
use crate::json_value::{view_members, Json, JsonV};
use crate::text::{
    find_char, find_char_from, has_at, lemma_find_char_from, seq_has_at, str_chars,
    string_of_range};

verus! {

/// An event of the enriched stream that the AST builder consumes.
pub enum RichEvent {
    /// A CommonMark event with its byte range.
    Cmark(MdEvent, usize, usize),
    /// An inline widget `:[text]{name key=value ...}` with its byte range.
    Widget { name: String, text: String, attrs: Vec<(String, Json)>, start: usize, end: usize },
    /// Attributes `{key=value ...}` that follow a link or an image.
    LinkImageAttrs(Vec<(String, Json)>),
}

/// The value of a [`RichEvent`].
pub enum RichV {
    Cmark(MdEventV, usize, usize),
    Widget {
        name: Seq<char>,
        text: Seq<char>,
        attrs: Seq<(Seq<char>, JsonV)>,
        start: usize,
        end: usize,
    },
    LinkImageAttrs(Seq<(Seq<char>, JsonV)>),
}

impl View for RichEvent {
    type V = RichV;

    open spec fn view(&self) -> RichV {
        match self {
            RichEvent::Cmark(e, s, t) => RichV::Cmark(e@, *s, *t),
            RichEvent::Widget { name, text, attrs, start, end } => RichV::Widget {
                name: name@,
                text: text@,
                attrs: view_members(attrs@),
                start: *start,
                end: *end,
            },
            RichEvent::LinkImageAttrs(a) => RichV::LinkImageAttrs(view_members(a@)),
        }
    }
}

/// The values of a sequence of rich events.
pub open spec fn rich_view(s: Seq<RichEvent>) -> Seq<RichV> {
    s.map_values(|e: RichEvent| e@)
}

/// The index just past the line that starts at `i` (past its `\n`, or the end).
pub open spec fn line_end(s: Seq<char>, i: int) -> int {
    match find_char_from(s, i, '\n') {
        Some(k) => k + 1,
        None => s.len() as int,
    }
}

pub proof fn lemma_line_end(s: Seq<char>, i: int)
    requires
        0 <= i < s.len(),
    ensures
        i < line_end(s, i) <= s.len(),
        forall|j: int| i <= j < line_end(s, i) - 1 ==> s[j] != '\n',
        line_end(s, i) < s.len() ==> s[line_end(s, i) - 1] == '\n',
{
    lemma_find_char_from(s, i, '\n');
}

/// `line` without its trailing `\r` and `\n` characters.
pub open spec fn crlf_trim(line: Seq<char>) -> Seq<char>
    decreases line.len(),
{
    if line.len() > 0 && (line.last() == '\r' || line.last() == '\n') {
        crlf_trim(line.drop_last())
    } else {
        line
    }
}

/// Whether `line` closes a frontmatter block (`---` or `...`).
pub open spec fn is_fm_delim(line: Seq<char>) -> bool {
    crlf_trim(line) == "---"@ || crlf_trim(line) == "..."@
}

/// The length of the opening frontmatter delimiter line of `s` (0 when `s`
/// does not start with `---\n` or `---\r\n`).
pub open spec fn fm_open_len(s: Seq<char>) -> int {
    if seq_has_at(s, 0, "---\n"@) {
        4
    } else if seq_has_at(s, 0, "---\r\n"@) {
        5
    } else {
        0
    }
}

/// The start of the first closing delimiter line at or after the line that
/// starts at `i`.
pub open spec fn fm_close(s: Seq<char>, i: int) -> Option<int>
    decreases s.len() - i,
{
    if i < 0 || i >= s.len() {
        None
    } else {
        let e = line_end(s, i);
        if is_fm_delim(s.subrange(i, e)) {
            Some(i)
        } else {
            proof {
                lemma_line_end(s, i);
            }
            fm_close(s, e)
        }
    }
}

/// The body of `s` and its frontmatter text: when `s` opens with a `---`
/// line and a later line is `---` or `...`, the lines in between are the
/// frontmatter and what follows the closing line is the body; otherwise the
/// body is all of `s` and there is no frontmatter.
pub open spec fn split_frontmatter(s: Seq<char>) -> (Seq<char>, Option<Seq<char>>) {
    let k = fm_open_len(s);
    if k == 0 {
        (s, None)
    } else {
        match fm_close(s, k) {
            Some(c) => (s.subrange(line_end(s, c), s.len() as int), Some(s.subrange(k, c))),
            None => (s, None),
        }
    }
}

pub proof fn lemma_fm_close(s: Seq<char>, i: int)
    requires
        0 <= i,
    ensures
        fm_close(s, i) matches Some(c) ==> i <= c < s.len() && line_end(s, c) <= s.len()
            && is_fm_delim(s.subrange(c, line_end(s, c))),
    decreases s.len() - i,
{
    if i < s.len() {
        lemma_line_end(s, i);
        if !is_fm_delim(s.subrange(i, line_end(s, i))) {
            lemma_fm_close(s, line_end(s, i));
        }
    }
}

/// Number of characters of `s[from..to]` left once trailing `\r`/`\n` are removed.
fn crlf_trim_len(s: &[char], from: usize, to: usize) -> (r: usize)
    requires
        from <= to <= s.len(),
    ensures
        from <= r <= to,
        crlf_trim(s@.subrange(from as int, to as int)) == s@.subrange(from as int, r as int),
{
    let mut k = to;
    while k > from && (s[k - 1] == '\r' || s[k - 1] == '\n')
        invariant
            from <= k <= to <= s.len(),
            crlf_trim(s@.subrange(from as int, to as int)) == crlf_trim(
                s@.subrange(from as int, k as int),
            ),
        decreases k,
    {
        assert(s@.subrange(from as int, k as int).drop_last() =~= s@.subrange(
            from as int,
            k - 1,
        ));
        k = k - 1;
    }
    k
}

/// Whether `s[from..to]` is a frontmatter delimiter line.
fn is_delim_line(s: &[char], from: usize, to: usize, dashes: &[char], dots: &[char]) -> (r: bool)
    requires
        from <= to <= s.len(),
        dashes@ == "---"@,
        dots@ == "..."@,
    ensures
        r == is_fm_delim(s@.subrange(from as int, to as int)),
{
    proof {
        reveal_strlit("---");
        reveal_strlit("...");
    }
    let n = crlf_trim_len(s, from, to);
    let r = (n - from == 3) && (has_at(s, from, dashes) || has_at(s, from, dots));
    proof {
        let t = s@.subrange(from as int, n as int);
        if n - from == 3 {
            assert(seq_has_at(s@, from as int, dashes@) <==> t == dashes@);
            assert(seq_has_at(s@, from as int, dots@) <==> t == dots@);
        } else {
            assert(t.len() != 3);
        }
    }
    r
}

/// The end of the line of `s` that starts at `i`.
pub(crate) fn line_end_at(s: &[char], i: usize) -> (e: usize)
    requires
        i < s.len(),
    ensures
        e == line_end(s@, i as int),
        i < e <= s.len(),
{
    proof {
        lemma_line_end(s@, i as int);
    }
    match find_char(s, i, '\n') {
        Some(k) => k + 1,
        None => s.len(),
    }
}

/// Locates the frontmatter block of `s`: `(start, close, body)` where the
/// frontmatter is `s[start..close]` and the body starts at `body`.
pub fn find_frontmatter(s: &[char]) -> (r: Option<(usize, usize, usize)>)
    ensures
        match r {
            Some((a, c, b)) => a <= c <= b <= s.len() && split_frontmatter(s@) == (
                s@.subrange(b as int, s@.len() as int),
                Some(s@.subrange(a as int, c as int)),
            ),
            None => split_frontmatter(s@) == (s@, None::<Seq<char>>),
        },
{
    proof {
        reveal_strlit("---\n");
        reveal_strlit("---\r\n");
    }
    let open_lf = str_chars("---\n");
    let open_crlf = str_chars("---\r\n");
    let dashes = str_chars("---");
    let dots = str_chars("...");
    let k: usize = if has_at(s, 0, &open_lf) {
        4
    } else if has_at(s, 0, &open_crlf) {
        5
    } else {
        return None;
    };
    assert(k as int == fm_open_len(s@));
    let mut i = k;
    while i < s.len()
        invariant
            k <= i <= s.len(),
            k == 4 || k == 5,
            k as int == fm_open_len(s@),
            fm_close(s@, k as int) == fm_close(s@, i as int),
            dashes@ == "---"@,
            dots@ == "..."@,
        decreases s.len() - i,
    {
        let e = line_end_at(s, i);
        if is_delim_line(s, i, e, &dashes, &dots) {
            assert(fm_close(s@, i as int) == Some(i as int));
            return Some((k, i, e));
        }
        i = e;
    }
    None
}

/// Strips the YAML frontmatter block (if present): returns the body and the
/// frontmatter text, or the whole input and `None`.
pub fn frontmatter_prepass(raw: &str) -> (r: (String, Option<String>))
    ensures
        r.0@ == split_frontmatter(raw@).0,
        match r.1 {
            Some(f) => split_frontmatter(raw@).1 == Some(f@),
            None => split_frontmatter(raw@).1 is None,
        },
{
    let s = str_chars(raw);
    match find_frontmatter(&s) {
        Some((a, c, b)) => (string_of_range(&s, b, s.len()), Some(string_of_range(&s, a, c))),
        None => {
            proof {
                assert(s@.subrange(0, s@.len() as int) =~= s@);
            }
            (string_of_range(&s, 0, s.len()), None)
        },
    }
}

/// The document is its opening delimiter line, its frontmatter, its closing
/// delimiter line and its body, in this order.
pub proof fn lemma_frontmatter_parts(s: Seq<char>)
    ensures
        split_frontmatter(s).1 matches Some(fm) ==> exists|close: Seq<char>|
            #![trigger is_fm_delim(close)]
            is_fm_delim(close) && s =~= s.subrange(0, fm_open_len(s)) + fm + close
                + split_frontmatter(s).0,
        split_frontmatter(s).1 is None ==> split_frontmatter(s).0 == s,
{
    let k = fm_open_len(s);
    if k != 0 {
        lemma_fm_close(s, k);
        if let Some(c) = fm_close(s, k) {
            lemma_line_end(s, c);
            let close = s.subrange(c, line_end(s, c));
            assert(is_fm_delim(close));
            assert(s =~= s.subrange(0, k) + s.subrange(k, c) + close + s.subrange(
                line_end(s, c),
                s.len() as int,
            ));
        }
    }
}

} // verus!
