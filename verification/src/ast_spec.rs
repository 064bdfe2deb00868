//! What the AST builder computes: a step function over builder states.
//!
//! The builder reads the enriched event stream once; each opening tag
//! pushes a frame, each closing tag pops it and attaches the finished node to
//! its parent frame or to the top-level block list.
use vstd::prelude::*;
use crate::attrs::{info_attrs, info_name};
use crate::cmark::{Align, Level, MdEventV, MdTagEnd, MdTagV, QuoteKind};
use crate::event_filter::RichV;
use crate::json_value::{JsonV, members_get, members_insert};
use crate::text::{decimal, trim_end};

verus! {

/// An open frame: the node being assembled, its inline children, and the
/// raw text that code and HTML blocks accumulate.
pub struct FrameV {
    pub node: Seq<(Seq<char>, JsonV)>,
    pub inline: Seq<JsonV>,
    pub text: Seq<char>,
    /// Whether the node is a `fenced` or `html_block` node (raw text frame).
    pub raw: bool,
}

/// The state of the builder.
pub struct BuilderV {
    pub blocks: Seq<JsonV>,
    pub stack: Seq<FrameV>,
    pub in_table_head: bool,
    pub headers: Seq<JsonV>,
    pub rows: Seq<JsonV>,
    pub row: Seq<JsonV>,
}

/// The builder before any event.
pub open spec fn builder_init() -> BuilderV {
    BuilderV {
        blocks: Seq::empty(),
        stack: Seq::empty(),
        in_table_head: false,
        headers: Seq::empty(),
        rows: Seq::empty(),
        row: Seq::empty(),
    }
}

/// `[start, end]`.
pub open spec fn range_json(start: usize, end: usize) -> JsonV {
    JsonV::Array(seq![JsonV::Number(decimal(start as nat)), JsonV::Number(decimal(end as nat))])
}

/// A node `{"t": t, "range": [start, end]}` followed by `extra` members.
pub open spec fn leaf(t: Seq<char>, start: usize, end: usize, extra: Seq<(Seq<char>, JsonV)>) -> JsonV {
    JsonV::Object(seq![("t"@, JsonV::Str(t)), ("range"@, range_json(start, end))] + extra)
}

/// A new frame for a node of type `t`.
pub open spec fn frame_new(t: Seq<char>, start: usize, end: usize) -> FrameV {
    FrameV {
        node: seq![("t"@, JsonV::Str(t)), ("range"@, range_json(start, end))],
        inline: Seq::empty(),
        text: Seq::empty(),
        raw: t == "fenced"@ || t == "html_block"@,
    }
}

/// `f` with `key` bound to `val` in its node.
pub open spec fn frame_with(f: FrameV, key: Seq<char>, val: JsonV) -> FrameV {
    FrameV { node: members_insert(f.node, key, val), ..f }
}

pub open spec fn heading_level_spec(l: Level) -> nat {
    match l {
        Level::H1 => 1,
        Level::H2 => 2,
        Level::H3 => 3,
        Level::H4 => 4,
        Level::H5 => 5,
        Level::H6 => 6,
    }
}

pub open spec fn quote_kind_name(k: QuoteKind) -> Seq<char> {
    match k {
        QuoteKind::Note => "note"@,
        QuoteKind::Tip => "tip"@,
        QuoteKind::Important => "important"@,
        QuoteKind::Warning => "warning"@,
        QuoteKind::Caution => "caution"@,
    }
}

pub open spec fn align_name(a: Align) -> Seq<char> {
    match a {
        Align::Left => "left"@,
        Align::Right => "right"@,
        Align::Center => "center"@,
        Align::NoAlign => "none"@,
    }
}

/// The text member of an inline node, if it has one that is a string.
pub open spec fn node_text(node: JsonV) -> Option<Seq<char>> {
    match node {
        JsonV::Object(m) => match members_get(m, "text"@) {
            Some(JsonV::Str(s)) => Some(s),
            _ => None,
        },
        _ => None,
    }
}

/// Whether an inline node is a soft or hard line break.
pub open spec fn node_is_break(node: JsonV) -> bool {
    match node {
        JsonV::Object(m) => members_get(m, "t"@) == Some(JsonV::Str("soft_break"@))
            || members_get(m, "t"@) == Some(JsonV::Str("hard_break"@)),
        _ => false,
    }
}

/// `b` with its innermost frame replaced by `f`.
pub open spec fn set_top(b: BuilderV, f: FrameV) -> BuilderV {
    BuilderV { stack: b.stack.update(b.stack.len() - 1, f), ..b }
}

/// Adds an inline node to the innermost frame (raw-text frames take the
/// node's text, or a newline for a line break), or to the top level.
pub open spec fn push_inline(b: BuilderV, node: JsonV) -> BuilderV {
    if b.stack.len() > 0 {
        let f = b.stack.last();
        if f.raw && node_text(node) is Some {
            set_top(b, FrameV { text: f.text + node_text(node)->0, ..f })
        } else if f.raw && node_is_break(node) {
            set_top(b, FrameV { text: f.text.push('\n'), ..f })
        } else {
            set_top(b, FrameV { inline: f.inline.push(node), ..f })
        }
    } else {
        BuilderV { blocks: b.blocks.push(node), ..b }
    }
}

/// Adds a finished block node to the innermost frame, or to the top level.
pub open spec fn flush_block(b: BuilderV, node: JsonV) -> BuilderV {
    if b.stack.len() > 0 {
        let f = b.stack.last();
        set_top(b, FrameV { inline: f.inline.push(node), ..f })
    } else {
        BuilderV { blocks: b.blocks.push(node), ..b }
    }
}

/// Adds a block node to the top level.
pub open spec fn push_block(b: BuilderV, node: JsonV) -> BuilderV {
    BuilderV { blocks: b.blocks.push(node), ..b }
}

/// Opens a frame.
pub open spec fn push_frame(b: BuilderV, f: FrameV) -> BuilderV {
    BuilderV { stack: b.stack.push(f), ..b }
}

/// The JSON strings of `v`.
pub open spec fn strings_json(v: Seq<Seq<char>>) -> Seq<JsonV> {
    v.map_values(|s: Seq<char>| JsonV::Str(s))
}

/// The attributes of a heading, later keys overriding earlier ones; a
/// valueless attribute is `null`.
pub open spec fn heading_attrs(a: Seq<(Seq<char>, Option<Seq<char>>)>) -> Seq<(Seq<char>, JsonV)>
    decreases a.len(),
{
    if a.len() == 0 {
        Seq::empty()
    } else {
        let (k, v) = a.last();
        members_insert(
            heading_attrs(a.drop_last()),
            k,
            match v {
                Some(s) => JsonV::Str(s),
                None => JsonV::Null,
            },
        )
    }
}

/// The heading frame of a `Heading` tag.
pub open spec fn heading_frame(
    level: Level,
    id: Option<Seq<char>>,
    classes: Seq<Seq<char>>,
    attrs: Seq<(Seq<char>, Option<Seq<char>>)>,
    start: usize,
    end: usize,
) -> FrameV {
    let f0 = frame_with(
        frame_new("heading"@, start, end),
        "level"@,
        JsonV::Number(decimal(heading_level_spec(level))),
    );
    let f1 = match id {
        Some(i) => frame_with(f0, "id"@, JsonV::Str(i)),
        None => f0,
    };
    let f2 = if classes.len() > 0 {
        frame_with(f1, "classes"@, JsonV::Array(strings_json(classes)))
    } else {
        f1
    };
    if attrs.len() > 0 {
        frame_with(f2, "attrs"@, JsonV::Object(heading_attrs(attrs)))
    } else {
        f2
    }
}

/// The frame of a fenced code block with info string `info`.
pub open spec fn fenced_frame(info: Seq<char>, start: usize, end: usize) -> FrameV {
    let f = frame_with(frame_new("fenced"@, start, end), "name"@, JsonV::Str(info_name(info)));
    frame_with(f, "attrs"@, JsonV::Object(info_attrs(info)))
}

/// The builder after an opening tag.
pub open spec fn open_tag(b: BuilderV, tag: MdTagV, start: usize, end: usize) -> BuilderV {
    match tag {
        MdTagV::Paragraph => push_frame(b, frame_new("paragraph"@, start, end)),
        MdTagV::Heading { level, id, classes, attrs } => push_frame(
            b,
            heading_frame(level, id, classes, attrs, start, end),
        ),
        MdTagV::BlockQuote(kind) => push_frame(
            b,
            match kind {
                Some(k) => frame_with(
                    frame_new("blockquote"@, start, end),
                    "kind"@,
                    JsonV::Str(quote_kind_name(k)),
                ),
                None => frame_new("blockquote"@, start, end),
            },
        ),
        MdTagV::CodeBlock(Some(info)) => push_frame(b, fenced_frame(info, start, end)),
        MdTagV::CodeBlock(None) => push_frame(
            b,
            frame_with(
                frame_with(frame_new("fenced"@, start, end), "name"@, JsonV::Str(Seq::empty())),
                "attrs"@,
                JsonV::Object(Seq::empty()),
            ),
        ),
        MdTagV::HtmlBlock => push_frame(b, frame_new("html_block"@, start, end)),
        MdTagV::List(first) => push_frame(
            b,
            match first {
                Some(n) => frame_with(
                    frame_with(frame_new("list"@, start, end), "ordered"@, JsonV::Bool(true)),
                    "start"@,
                    JsonV::Number(decimal(n as nat)),
                ),
                None => frame_with(frame_new("list"@, start, end), "ordered"@, JsonV::Bool(false)),
            },
        ),
        MdTagV::Item => push_frame(b, frame_new("list_item"@, start, end)),
        MdTagV::FootnoteDefinition(label) => push_frame(
            b,
            frame_with(frame_new("footnote_def"@, start, end), "label"@, JsonV::Str(label)),
        ),
        MdTagV::Table(aligns) => push_frame(
            BuilderV { headers: Seq::empty(), rows: Seq::empty(), ..b },
            frame_with(
                frame_new("table"@, start, end),
                "align"@,
                JsonV::Array(aligns.map_values(|a: Align| JsonV::Str(align_name(a)))),
            ),
        ),
        MdTagV::TableHead => BuilderV { in_table_head: true, ..b },
        MdTagV::TableRow => BuilderV { row: Seq::empty(), ..b },
        MdTagV::TableCell => push_frame(b, frame_new("_cell"@, start, end)),
        MdTagV::DefinitionList => push_frame(b, frame_new("definition_list"@, start, end)),
        MdTagV::DefinitionListTitle => push_frame(b, frame_new("_def_title"@, start, end)),
        MdTagV::DefinitionListDefinition => push_frame(b, frame_new("_def_body"@, start, end)),
        MdTagV::Emphasis => push_frame(b, frame_new("em"@, start, end)),
        MdTagV::Strong => push_frame(b, frame_new("strong"@, start, end)),
        MdTagV::Strikethrough => push_frame(b, frame_new("del"@, start, end)),
        MdTagV::Superscript => push_frame(b, frame_new("sup"@, start, end)),
        MdTagV::Subscript => push_frame(b, frame_new("sub"@, start, end)),
        MdTagV::Link { dest_url, title } => push_frame(
            b,
            frame_with(
                frame_with(frame_new("link"@, start, end), "href"@, JsonV::Str(dest_url)),
                "title"@,
                JsonV::Str(title),
            ),
        ),
        MdTagV::Image { dest_url, title } => push_frame(
            b,
            frame_with(
                frame_with(frame_new("image"@, start, end), "src"@, JsonV::Str(dest_url)),
                "title"@,
                JsonV::Str(title),
            ),
        ),
        MdTagV::MetadataBlock => b,
    }
}

/// The builder with its innermost frame closed: its node, with `key` bound
/// to `val`, goes where `attach` says.
pub open spec fn pop_frame(b: BuilderV) -> BuilderV {
    BuilderV { stack: b.stack.drop_last(), ..b }
}

/// The finished node of the innermost frame, with its inline children as `key`.
pub open spec fn finished(f: FrameV, key: Seq<char>) -> JsonV {
    JsonV::Object(members_insert(f.node, key, JsonV::Array(f.inline)))
}

/// The builder after a closing tag.
pub open spec fn close_tag(b: BuilderV, end: MdTagEnd) -> BuilderV {
    if b.stack.len() == 0 && !(end is TableHead || end is TableRow) {
        b
    } else {
        let f = b.stack.last();
        let p = pop_frame(b);
        match end {
            MdTagEnd::Emphasis | MdTagEnd::Strong | MdTagEnd::Strikethrough
            | MdTagEnd::Superscript | MdTagEnd::Subscript | MdTagEnd::Link | MdTagEnd::Image
            | MdTagEnd::DefinitionListTitle | MdTagEnd::DefinitionListDefinition => push_inline(
                p,
                finished(f, "children"@),
            ),
            MdTagEnd::Paragraph | MdTagEnd::Heading(_) | MdTagEnd::BlockQuote | MdTagEnd::Item
            | MdTagEnd::FootnoteDefinition => flush_block(p, finished(f, "children"@)),
            MdTagEnd::CodeBlock => flush_block(
                p,
                JsonV::Object(members_insert(f.node, "raw"@, JsonV::Str(trim_end(f.text)))),
            ),
            MdTagEnd::HtmlBlock => flush_block(
                p,
                JsonV::Object(members_insert(f.node, "html"@, JsonV::Str(f.text))),
            ),
            MdTagEnd::List | MdTagEnd::DefinitionList => flush_block(p, finished(f, "items"@)),
            MdTagEnd::TableCell => {
                let cell = finished(f, "children"@);
                if b.in_table_head {
                    BuilderV { headers: p.headers.push(cell), ..p }
                } else {
                    BuilderV { row: p.row.push(cell), ..p }
                }
            },
            MdTagEnd::TableHead => BuilderV { in_table_head: false, ..b },
            MdTagEnd::TableRow => if b.row.len() > 0 {
                BuilderV { rows: b.rows.push(JsonV::Array(b.row)), row: Seq::empty(), ..b }
            } else {
                b
            },
            MdTagEnd::Table => flush_block(
                BuilderV { headers: Seq::empty(), rows: Seq::empty(), ..p },
                JsonV::Object(
                    members_insert(
                        members_insert(f.node, "headers"@, JsonV::Array(b.headers)),
                        "rows"@,
                        JsonV::Array(b.rows),
                    ),
                ),
            ),
            MdTagEnd::MetadataBlock => b,
        }
    }
}

/// The builder after a CommonMark event with byte range `start..end`.
pub open spec fn cmark_step(b: BuilderV, e: MdEventV, start: usize, end: usize) -> BuilderV {
    match e {
        MdEventV::Start(tag) => open_tag(b, tag, start, end),
        MdEventV::End(t) => close_tag(b, t),
        MdEventV::Rule => flush_block(b, leaf("hr"@, start, end, Seq::empty())),
        MdEventV::TaskListMarker(c) => push_inline(
            b,
            leaf("task_marker"@, start, end, seq![("checked"@, JsonV::Bool(c))]),
        ),
        MdEventV::Text(t) => push_inline(b, leaf("text"@, start, end, seq![("text"@, JsonV::Str(t))])),
        MdEventV::Code(t) => push_inline(
            b,
            leaf("code_span"@, start, end, seq![("text"@, JsonV::Str(t))]),
        ),
        MdEventV::InlineMath(t) => push_inline(
            b,
            leaf("math_inline"@, start, end, seq![("src"@, JsonV::Str(t))]),
        ),
        MdEventV::DisplayMath(t) => push_block(
            b,
            leaf("math_block"@, start, end, seq![("src"@, JsonV::Str(t))]),
        ),
        MdEventV::Html(t) | MdEventV::InlineHtml(t) => {
            let node = leaf("raw_html"@, start, end, seq![("html"@, JsonV::Str(t))]);
            if b.stack.len() == 0 {
                push_block(b, node)
            } else if b.stack.last().raw {
                set_top(b, FrameV { text: b.stack.last().text + t, ..b.stack.last() })
            } else {
                push_inline(b, node)
            }
        },
        MdEventV::FootnoteReference(l) => push_inline(
            b,
            leaf("footnote_ref"@, start, end, seq![("label"@, JsonV::Str(l))]),
        ),
        MdEventV::SoftBreak => push_inline(b, leaf("soft_break"@, start, end, Seq::empty())),
        MdEventV::HardBreak => push_inline(b, leaf("hard_break"@, start, end, Seq::empty())),
    }
}

/// `m` with the members `a` bound in order.
pub open spec fn insert_all(m: Seq<(Seq<char>, JsonV)>, a: Seq<(Seq<char>, JsonV)>) -> Seq<
    (Seq<char>, JsonV),
>
    decreases a.len(),
{
    if a.len() == 0 {
        m
    } else {
        members_insert(insert_all(m, a.drop_last()), a.last().0, a.last().1)
    }
}

/// The builder after one enriched event.
pub open spec fn step(b: BuilderV, e: RichV) -> BuilderV {
    match e {
        RichV::Cmark(ev, start, end) => cmark_step(b, ev, start, end),
        RichV::Widget { name, text, attrs, start, end } => push_inline(
            b,
            leaf(
                "widget"@,
                start,
                end,
                seq![
                    ("name"@, JsonV::Str(name)),
                    ("text"@, JsonV::Str(text)),
                    ("attrs"@, JsonV::Object(attrs)),
                ],
            ),
        ),
        RichV::LinkImageAttrs(attrs) => if b.stack.len() > 0 {
            let f = b.stack.last();
            let existing = match members_get(f.node, "attrs"@) {
                Some(JsonV::Object(m)) => m,
                _ => Seq::empty(),
            };
            set_top(
                b,
                frame_with(f, "attrs"@, JsonV::Object(insert_all(existing, attrs))),
            )
        } else {
            b
        },
    }
}

/// The builder after the events `events[i..]`, starting from `b`.
pub open spec fn run_from(events: Seq<RichV>, i: int, b: BuilderV) -> BuilderV
    decreases events.len() - i,
{
    if i < 0 || i >= events.len() {
        b
    } else {
        run_from(events, i + 1, step(b, events[i]))
    }
}

/// The value of a JSON number text that reads as an unsigned 64-bit
/// integer (`Value::as_u64`): only digits, and in range.
pub open spec fn number_as_u64(t: Seq<char>) -> Option<u64> {
    if t.len() > 0 && (forall|i: int| 0 <= i < t.len() ==> '0' <= #[trigger] t[i] <= '9')
        && digits_value(t) <= u64::MAX {
        Some(digits_value(t) as u64)
    } else {
        None
    }
}

/// The value of a string of decimal digits.
pub open spec fn digits_value(t: Seq<char>) -> nat
    decreases t.len(),
{
    if t.len() == 0 {
        0
    } else {
        digits_value(t.drop_last()) * 10 + ((t.last() as u32 - '0' as u32) as nat)
    }
}

/// The start of a block's byte range (`block["range"][0]` as an integer).
pub open spec fn block_start(b: JsonV) -> Option<u64> {
    match b {
        JsonV::Object(m) => match members_get(m, "range"@) {
            Some(JsonV::Array(a)) => if a.len() > 0 {
                match a[0] {
                    JsonV::Number(t) => number_as_u64(t),
                    _ => None,
                }
            } else {
                None
            },
            _ => None,
        },
        _ => None,
    }
}

/// Whether a directive that starts at byte `start_byte` goes before `b`.
pub open spec fn goes_before(b: JsonV, start_byte: usize) -> bool {
    match block_start(b) {
        Some(s) => (s as usize) >= start_byte,
        None => false,
    }
}

/// Index of the first block of `blocks[i..]` that a directive starting at
/// `start_byte` goes before (`blocks.len()` when there is none).
pub open spec fn insert_index(blocks: Seq<JsonV>, start_byte: usize, i: int) -> int
    decreases blocks.len() - i,
{
    if i < 0 || i >= blocks.len() {
        blocks.len() as int
    } else if goes_before(blocks[i], start_byte) {
        i
    } else {
        insert_index(blocks, start_byte, i + 1)
    }
}

/// The blocks with each directive node inserted, in order, before the first
/// block that starts at or after the directive.
pub open spec fn merge_directives_spec(blocks: Seq<JsonV>, directives: Seq<(usize, JsonV)>) -> Seq<
    JsonV,
>
    decreases directives.len(),
{
    if directives.len() == 0 {
        blocks
    } else {
        let m = merge_directives_spec(blocks, directives.drop_last());
        let (sb, node) = directives.last();
        m.insert(insert_index(m, sb, 0), node)
    }
}

/// The AST of the enriched events `events` and the directive table.
pub open spec fn build_ast_spec(events: Seq<RichV>, directives: Seq<(usize, JsonV)>) -> Seq<JsonV> {
    merge_directives_spec(run_from(events, 0, builder_init()).blocks, directives)
}

pub proof fn lemma_insert_index(blocks: Seq<JsonV>, start_byte: usize, i: int)
    requires
        0 <= i <= blocks.len(),
    ensures
        i <= insert_index(blocks, start_byte, i) <= blocks.len(),
    decreases blocks.len() - i,
{
    if i < blocks.len() && !goes_before(blocks[i], start_byte) {
        lemma_insert_index(blocks, start_byte, i + 1);
    }
}

/// The directive nodes of a directive table.
pub open spec fn directive_nodes(directives: Seq<(usize, JsonV)>) -> Seq<JsonV> {
    directives.map_values(|d: (usize, JsonV)| d.1)
}

/// Merging the directive table into the blocks loses nothing and adds
/// nothing: the result holds every block and every directive node, each
/// as often as they occur.
pub proof fn lemma_merge_keeps_every_node(blocks: Seq<JsonV>, directives: Seq<(usize, JsonV)>)
    ensures
        merge_directives_spec(blocks, directives).to_multiset() == blocks.to_multiset().add(
            directive_nodes(directives).to_multiset(),
        ),
        merge_directives_spec(blocks, directives).len() == blocks.len() + directives.len(),
    decreases directives.len(),
{
    broadcast use vstd::multiset::group_multiset_axioms;
    broadcast use vstd::seq_lib::group_to_multiset_ensures;

    if directives.len() == 0 {
        assert(directive_nodes(directives) =~= Seq::<JsonV>::empty());
        assert(Seq::<JsonV>::empty().to_multiset().len() == 0);
        assert(Seq::<JsonV>::empty().to_multiset() =~= vstd::multiset::Multiset::empty());
        assert(blocks.to_multiset().add(Seq::<JsonV>::empty().to_multiset()) =~= blocks.to_multiset());
    } else {
        let rest = directives.drop_last();
        lemma_merge_keeps_every_node(blocks, rest);
        let m = merge_directives_spec(blocks, rest);
        let (sb, node) = directives.last();
        lemma_insert_index(m, sb, 0);
        vstd::seq_lib::to_multiset_insert(m, insert_index(m, sb, 0), node);
        assert(directive_nodes(directives) =~= directive_nodes(rest) + seq![node]);
        vstd::seq_lib::lemma_multiset_commutative(directive_nodes(rest), seq![node]);
        assert(seq![node].to_multiset() =~= vstd::multiset::Multiset::<JsonV>::empty().insert(node)) by {
            assert(seq![node] =~= Seq::<JsonV>::empty().push(node));
        }
        assert(merge_directives_spec(blocks, directives).to_multiset() =~= blocks.to_multiset().add(
            directive_nodes(directives).to_multiset(),
        ));
    }
}

/// Whether members start with a string `t` (the node's type).
pub open spec fn typed_members(m: Seq<(Seq<char>, JsonV)>) -> bool {
    m.len() > 0 && m[0].0 == "t"@ && m[0].1 is Str
}

/// Whether `v` is a node: an object whose first member is its string type `t`.
pub open spec fn typed(v: JsonV) -> bool {
    v matches JsonV::Object(m) && typed_members(m)
}

/// Whether every top-level block is a node and every open frame builds one.
pub open spec fn builder_typed(b: BuilderV) -> bool {
    &&& forall|i: int| 0 <= i < b.blocks.len() ==> typed(#[trigger] b.blocks[i])
    &&& forall|k: int| 0 <= k < b.stack.len() ==> typed_members(#[trigger] b.stack[k].node)
}

proof fn lemma_insert_keeps_type(m: Seq<(Seq<char>, JsonV)>, k: Seq<char>, v: JsonV)
    requires
        typed_members(m),
        k.len() != 1,
    ensures
        typed_members(members_insert(m, k, v)),
{
    reveal_strlit("t");
    crate::json_value::lemma_key_index(m, k);
    if let Some(i) = crate::json_value::key_index(m, k) {
        assert(i != 0);
    }
}

proof fn lemma_frame_with_typed(f: FrameV, k: Seq<char>, v: JsonV)
    requires
        typed_members(f.node),
        k.len() != 1,
    ensures
        typed_members(frame_with(f, k, v).node),
{
    lemma_insert_keeps_type(f.node, k, v);
}

proof fn lemma_keys_long()
    ensures
        "children"@.len() != 1,
        "raw"@.len() != 1,
        "html"@.len() != 1,
        "items"@.len() != 1,
        "headers"@.len() != 1,
        "rows"@.len() != 1,
        "attrs"@.len() != 1,
        "level"@.len() != 1,
        "id"@.len() != 1,
        "classes"@.len() != 1,
        "kind"@.len() != 1,
        "name"@.len() != 1,
        "ordered"@.len() != 1,
        "start"@.len() != 1,
        "label"@.len() != 1,
        "align"@.len() != 1,
        "href"@.len() != 1,
        "title"@.len() != 1,
        "src"@.len() != 1,
{
    reveal_strlit("children");
    reveal_strlit("raw");
    reveal_strlit("html");
    reveal_strlit("items");
    reveal_strlit("headers");
    reveal_strlit("rows");
    reveal_strlit("attrs");
    reveal_strlit("level");
    reveal_strlit("id");
    reveal_strlit("classes");
    reveal_strlit("kind");
    reveal_strlit("name");
    reveal_strlit("ordered");
    reveal_strlit("start");
    reveal_strlit("label");
    reveal_strlit("align");
    reveal_strlit("href");
    reveal_strlit("title");
    reveal_strlit("src");
}

proof fn lemma_push_inline_typed(b: BuilderV, node: JsonV)
    requires
        builder_typed(b),
        typed(node),
    ensures
        builder_typed(push_inline(b, node)),
{
    let r = push_inline(b, node);
    if b.stack.len() > 0 {
        assert forall|k: int| 0 <= k < r.stack.len() implies typed_members(#[trigger] r.stack[k].node) by {
            assert(r.stack[k].node == b.stack[k].node);
        }
    } else {
        assert forall|i: int| 0 <= i < r.blocks.len() implies typed(#[trigger] r.blocks[i]) by {
            if i < b.blocks.len() {
                assert(r.blocks[i] == b.blocks[i]);
            }
        }
    }
}

proof fn lemma_flush_block_typed(b: BuilderV, node: JsonV)
    requires
        builder_typed(b),
        typed(node),
    ensures
        builder_typed(flush_block(b, node)),
{
    let r = flush_block(b, node);
    if b.stack.len() > 0 {
        assert forall|k: int| 0 <= k < r.stack.len() implies typed_members(#[trigger] r.stack[k].node) by {
            assert(r.stack[k].node == b.stack[k].node);
        }
    } else {
        assert forall|i: int| 0 <= i < r.blocks.len() implies typed(#[trigger] r.blocks[i]) by {
            if i < b.blocks.len() {
                assert(r.blocks[i] == b.blocks[i]);
            }
        }
    }
}

proof fn lemma_push_block_typed(b: BuilderV, node: JsonV)
    requires
        builder_typed(b),
        typed(node),
    ensures
        builder_typed(push_block(b, node)),
{
    let r = push_block(b, node);
    assert forall|i: int| 0 <= i < r.blocks.len() implies typed(#[trigger] r.blocks[i]) by {
        if i < b.blocks.len() {
            assert(r.blocks[i] == b.blocks[i]);
        }
    }
}

proof fn lemma_push_frame_typed(b: BuilderV, f: FrameV)
    requires
        builder_typed(b),
        typed_members(f.node),
    ensures
        builder_typed(push_frame(b, f)),
{
    let r = push_frame(b, f);
    assert forall|k: int| 0 <= k < r.stack.len() implies typed_members(#[trigger] r.stack[k].node) by {
        if k < b.stack.len() {
            assert(r.stack[k] == b.stack[k]);
        }
    }
}

proof fn lemma_open_tag_typed(b: BuilderV, tag: MdTagV, start: usize, end: usize)
    requires
        builder_typed(b),
    ensures
        builder_typed(open_tag(b, tag, start, end)),
{
    lemma_keys_long();
    match tag {
        MdTagV::Heading { level, id, classes, attrs } => {
            let f0 = frame_new("heading"@, start, end);
            lemma_frame_with_typed(f0, "level"@, JsonV::Number(decimal(heading_level_spec(level))));
            let f1 = frame_with(f0, "level"@, JsonV::Number(decimal(heading_level_spec(level))));
            if let Some(i) = id {
                lemma_frame_with_typed(f1, "id"@, JsonV::Str(i));
            }
            let f2 = match id {
                Some(i) => frame_with(f1, "id"@, JsonV::Str(i)),
                None => f1,
            };
            lemma_frame_with_typed(f2, "classes"@, JsonV::Array(strings_json(classes)));
            let f3 = if classes.len() > 0 {
                frame_with(f2, "classes"@, JsonV::Array(strings_json(classes)))
            } else {
                f2
            };
            lemma_frame_with_typed(f3, "attrs"@, JsonV::Object(heading_attrs(attrs)));
            lemma_push_frame_typed(b, heading_frame(level, id, classes, attrs, start, end));
        },
        MdTagV::BlockQuote(kind) => {
            let f0 = frame_new("blockquote"@, start, end);
            if let Some(k) = kind {
                lemma_frame_with_typed(f0, "kind"@, JsonV::Str(quote_kind_name(k)));
                lemma_push_frame_typed(b, frame_with(f0, "kind"@, JsonV::Str(quote_kind_name(k))));
            } else {
                lemma_push_frame_typed(b, f0);
            }
        },
        MdTagV::CodeBlock(Some(info)) => {
            let f0 = frame_new("fenced"@, start, end);
            lemma_frame_with_typed(f0, "name"@, JsonV::Str(info_name(info)));
            let f1 = frame_with(f0, "name"@, JsonV::Str(info_name(info)));
            lemma_frame_with_typed(f1, "attrs"@, JsonV::Object(info_attrs(info)));
            lemma_push_frame_typed(b, fenced_frame(info, start, end));
        },
        MdTagV::CodeBlock(None) => {
            let f0 = frame_new("fenced"@, start, end);
            lemma_frame_with_typed(f0, "name"@, JsonV::Str(Seq::empty()));
            let f1 = frame_with(f0, "name"@, JsonV::Str(Seq::empty()));
            lemma_frame_with_typed(f1, "attrs"@, JsonV::Object(Seq::empty()));
            lemma_push_frame_typed(b, frame_with(f1, "attrs"@, JsonV::Object(Seq::empty())));
        },
        MdTagV::List(first) => {
            let f0 = frame_new("list"@, start, end);
            lemma_frame_with_typed(f0, "ordered"@, JsonV::Bool(true));
            lemma_frame_with_typed(f0, "ordered"@, JsonV::Bool(false));
            let f1 = frame_with(f0, "ordered"@, JsonV::Bool(true));
            if let Some(n) = first {
                lemma_frame_with_typed(f1, "start"@, JsonV::Number(decimal(n as nat)));
                lemma_push_frame_typed(b, frame_with(f1, "start"@, JsonV::Number(decimal(n as nat))));
            } else {
                lemma_push_frame_typed(b, frame_with(f0, "ordered"@, JsonV::Bool(false)));
            }
        },
        MdTagV::FootnoteDefinition(label) => {
            let f0 = frame_new("footnote_def"@, start, end);
            lemma_frame_with_typed(f0, "label"@, JsonV::Str(label));
            lemma_push_frame_typed(b, frame_with(f0, "label"@, JsonV::Str(label)));
        },
        MdTagV::Table(aligns) => {
            let f0 = frame_new("table"@, start, end);
            let al = JsonV::Array(aligns.map_values(|a: Align| JsonV::Str(align_name(a))));
            lemma_frame_with_typed(f0, "align"@, al);
            lemma_push_frame_typed(BuilderV { headers: Seq::empty(), rows: Seq::empty(), ..b }, frame_with(f0, "align"@, al));
        },
        MdTagV::Link { dest_url, title } => {
            let f0 = frame_new("link"@, start, end);
            lemma_frame_with_typed(f0, "href"@, JsonV::Str(dest_url));
            let f1 = frame_with(f0, "href"@, JsonV::Str(dest_url));
            lemma_frame_with_typed(f1, "title"@, JsonV::Str(title));
            lemma_push_frame_typed(b, frame_with(f1, "title"@, JsonV::Str(title)));
        },
        MdTagV::Image { dest_url, title } => {
            let f0 = frame_new("image"@, start, end);
            lemma_frame_with_typed(f0, "src"@, JsonV::Str(dest_url));
            let f1 = frame_with(f0, "src"@, JsonV::Str(dest_url));
            lemma_frame_with_typed(f1, "title"@, JsonV::Str(title));
            lemma_push_frame_typed(b, frame_with(f1, "title"@, JsonV::Str(title)));
        },
        MdTagV::TableHead => {},
        MdTagV::TableRow => {},
        MdTagV::MetadataBlock => {},
        _ => {
            let r = open_tag(b, tag, start, end);
            assert(r.blocks == b.blocks);
            assert forall|k: int| 0 <= k < r.stack.len() implies typed_members(#[trigger] r.stack[k].node) by {
                if k < b.stack.len() {
                    assert(r.stack[k] == b.stack[k]);
                }
            }
        },
    }
}

proof fn lemma_close_tag_typed(b: BuilderV, end: MdTagEnd)
    requires
        builder_typed(b),
    ensures
        builder_typed(close_tag(b, end)),
{
    lemma_keys_long();
    if b.stack.len() > 0 {
        let f = b.stack.last();
        let p = pop_frame(b);
        assert(typed_members(b.stack[b.stack.len() - 1].node));
        assert(builder_typed(p)) by {
            assert forall|k: int| 0 <= k < p.stack.len() implies typed_members(#[trigger] p.stack[k].node) by {
                assert(p.stack[k] == b.stack[k]);
            }
        }
        lemma_insert_keeps_type(f.node, "children"@, JsonV::Array(f.inline));
        lemma_insert_keeps_type(f.node, "items"@, JsonV::Array(f.inline));
        lemma_insert_keeps_type(f.node, "raw"@, JsonV::Str(trim_end(f.text)));
        lemma_insert_keeps_type(f.node, "html"@, JsonV::Str(f.text));
        lemma_insert_keeps_type(f.node, "headers"@, JsonV::Array(b.headers));
        lemma_insert_keeps_type(
            members_insert(f.node, "headers"@, JsonV::Array(b.headers)),
            "rows"@,
            JsonV::Array(b.rows),
        );
        match end {
            MdTagEnd::Emphasis | MdTagEnd::Strong | MdTagEnd::Strikethrough
            | MdTagEnd::Superscript | MdTagEnd::Subscript | MdTagEnd::Link | MdTagEnd::Image
            | MdTagEnd::DefinitionListTitle | MdTagEnd::DefinitionListDefinition => {
                lemma_push_inline_typed(p, finished(f, "children"@));
            },
            MdTagEnd::Paragraph | MdTagEnd::Heading(_) | MdTagEnd::BlockQuote | MdTagEnd::Item
            | MdTagEnd::FootnoteDefinition => {
                lemma_flush_block_typed(p, finished(f, "children"@));
            },
            MdTagEnd::CodeBlock => {
                lemma_flush_block_typed(
                    p,
                    JsonV::Object(members_insert(f.node, "raw"@, JsonV::Str(trim_end(f.text)))),
                );
            },
            MdTagEnd::HtmlBlock => {
                lemma_flush_block_typed(
                    p,
                    JsonV::Object(members_insert(f.node, "html"@, JsonV::Str(f.text))),
                );
            },
            MdTagEnd::List | MdTagEnd::DefinitionList => {
                lemma_flush_block_typed(p, finished(f, "items"@));
            },
            MdTagEnd::Table => {
                lemma_flush_block_typed(
                    BuilderV { headers: Seq::empty(), rows: Seq::empty(), ..p },
                    JsonV::Object(
                        members_insert(
                            members_insert(f.node, "headers"@, JsonV::Array(b.headers)),
                            "rows"@,
                            JsonV::Array(b.rows),
                        ),
                    ),
                );
            },
            _ => {},
        }
    }
}

proof fn lemma_step_typed(b: BuilderV, e: RichV)
    requires
        builder_typed(b),
    ensures
        builder_typed(step(b, e)),
{
    lemma_keys_long();
    match e {
        RichV::Cmark(ev, start, end) => {
            match ev {
                MdEventV::Start(tag) => lemma_open_tag_typed(b, tag, start, end),
                MdEventV::End(t) => lemma_close_tag_typed(b, t),
                MdEventV::Rule => lemma_flush_block_typed(b, leaf("hr"@, start, end, Seq::empty())),
                MdEventV::TaskListMarker(c) => lemma_push_inline_typed(
                    b,
                    leaf("task_marker"@, start, end, seq![("checked"@, JsonV::Bool(c))]),
                ),
                MdEventV::Text(t) => lemma_push_inline_typed(
                    b,
                    leaf("text"@, start, end, seq![("text"@, JsonV::Str(t))]),
                ),
                MdEventV::Code(t) => lemma_push_inline_typed(
                    b,
                    leaf("code_span"@, start, end, seq![("text"@, JsonV::Str(t))]),
                ),
                MdEventV::InlineMath(t) => lemma_push_inline_typed(
                    b,
                    leaf("math_inline"@, start, end, seq![("src"@, JsonV::Str(t))]),
                ),
                MdEventV::DisplayMath(t) => lemma_push_block_typed(
                    b,
                    leaf("math_block"@, start, end, seq![("src"@, JsonV::Str(t))]),
                ),
                MdEventV::Html(t) | MdEventV::InlineHtml(t) => {
                    let node = leaf("raw_html"@, start, end, seq![("html"@, JsonV::Str(t))]);
                    lemma_push_block_typed(b, node);
                    lemma_push_inline_typed(b, node);
                    if b.stack.len() > 0 {
                        let f = b.stack.last();
                        let r = set_top(b, FrameV { text: f.text + t, ..f });
                        assert forall|k: int| 0 <= k < r.stack.len() implies typed_members(
                            #[trigger] r.stack[k].node,
                        ) by {
                            assert(r.stack[k].node == b.stack[k].node);
                        }
                    }
                },
                MdEventV::FootnoteReference(l) => lemma_push_inline_typed(
                    b,
                    leaf("footnote_ref"@, start, end, seq![("label"@, JsonV::Str(l))]),
                ),
                MdEventV::SoftBreak => lemma_push_inline_typed(b, leaf("soft_break"@, start, end, Seq::empty())),
                MdEventV::HardBreak => lemma_push_inline_typed(b, leaf("hard_break"@, start, end, Seq::empty())),
            }
        },
        RichV::Widget { name, text, attrs, start, end } => {
            lemma_push_inline_typed(
                b,
                leaf(
                    "widget"@,
                    start,
                    end,
                    seq![
                        ("name"@, JsonV::Str(name)),
                        ("text"@, JsonV::Str(text)),
                        ("attrs"@, JsonV::Object(attrs)),
                    ],
                ),
            );
        },
        RichV::LinkImageAttrs(attrs) => {
            if b.stack.len() > 0 {
                let f = b.stack.last();
                let existing = match members_get(f.node, "attrs"@) {
                    Some(JsonV::Object(m)) => m,
                    _ => Seq::empty(),
                };
                assert(typed_members(b.stack[b.stack.len() - 1].node));
                lemma_frame_with_typed(f, "attrs"@, JsonV::Object(insert_all(existing, attrs)));
                let r = step(b, e);
                assert forall|k: int| 0 <= k < r.stack.len() implies typed_members(#[trigger] r.stack[k].node) by {
                    if k < b.stack.len() - 1 {
                        assert(r.stack[k] == b.stack[k]);
                    }
                }
            }
        },
    }
}

proof fn lemma_run_typed(events: Seq<RichV>, i: int, b: BuilderV)
    requires
        builder_typed(b),
    ensures
        builder_typed(run_from(events, i, b)),
    decreases events.len() - i,
{
    if 0 <= i < events.len() {
        lemma_step_typed(b, events[i]);
        lemma_run_typed(events, i + 1, step(b, events[i]));
    }
}

proof fn lemma_merge_typed(blocks: Seq<JsonV>, directives: Seq<(usize, JsonV)>)
    requires
        forall|i: int| 0 <= i < blocks.len() ==> typed(#[trigger] blocks[i]),
        forall|i: int| 0 <= i < directives.len() ==> typed(#[trigger] directives[i].1),
    ensures
        forall|i: int|
            0 <= i < merge_directives_spec(blocks, directives).len() ==> typed(
                #[trigger] merge_directives_spec(blocks, directives)[i],
            ),
    decreases directives.len(),
{
    if directives.len() > 0 {
        let rest = directives.drop_last();
        assert forall|i: int| 0 <= i < rest.len() implies typed(#[trigger] rest[i].1) by {
            assert(rest[i] == directives[i]);
        }
        lemma_merge_typed(blocks, rest);
        let m = merge_directives_spec(blocks, rest);
        let (sb, node) = directives.last();
        assert(typed(directives[directives.len() - 1].1));
        lemma_insert_index(m, sb, 0);
        let j = insert_index(m, sb, 0);
        let r = m.insert(j, node);
        assert forall|i: int| 0 <= i < r.len() implies typed(#[trigger] r[i]) by {
            if i < j {
                assert(r[i] == m[i]);
            } else if i > j {
                assert(r[i] == m[i - 1]);
            }
        }
    }
}

/// Every block that the builder produces is a node with a string type
/// `t`, given directive nodes that are.
pub proof fn lemma_build_ast_typed(events: Seq<RichV>, directives: Seq<(usize, JsonV)>)
    requires
        forall|i: int| 0 <= i < directives.len() ==> typed(#[trigger] directives[i].1),
    ensures
        forall|i: int|
            0 <= i < build_ast_spec(events, directives).len() ==> typed(
                #[trigger] build_ast_spec(events, directives)[i],
            ),
{
    assert(builder_typed(builder_init()));
    lemma_run_typed(events, 0, builder_init());
    lemma_merge_typed(run_from(events, 0, builder_init()).blocks, directives);
}


/// `members_get` finds the member at `i` when no earlier member has its key;
/// it finds nothing when no member has it.
pub proof fn lemma_get_members(m: Seq<(Seq<char>, JsonV)>, k: Seq<char>)
    ensures
        forall|i: int|
            0 <= i < m.len() && m[i].0 == k && (forall|j: int| 0 <= j < i ==> m[j].0 != k)
                ==> members_get(m, k) == Some(#[trigger] m[i].1),
        (forall|j: int| 0 <= j < m.len() ==> m[j].0 != k) ==> members_get(m, k) is None,
{
    crate::json_value::lemma_key_index(m, k);
}

/// A list node is ordered exactly when it carries its first number: the
/// node that a list tag opens has `ordered` true and a `start` member when
/// the list is ordered, and `ordered` false and no `start` member when not.
pub proof fn lemma_list_start_only_when_ordered(b: BuilderV, first: Option<u64>, start: usize, end: usize)
    ensures
        members_get(open_tag(b, MdTagV::List(first), start, end).stack.last().node, "ordered"@) == Some(
            JsonV::Bool(first is Some),
        ),
        members_get(open_tag(b, MdTagV::List(first), start, end).stack.last().node, "start"@) == match first {
            Some(n) => Some(JsonV::Number(decimal(n as nat))),
            None => None,
        },
{
    reveal_strlit("t");
    reveal_strlit("range");
    reveal_strlit("ordered");
    reveal_strlit("start");
    let base = frame_new("list"@, start, end).node;
    assert("t"@.len() != "ordered"@.len() && "range"@.len() != "ordered"@.len());
    assert("t"@.len() != "start"@.len() && "range"@[0] != "start"@[0] && "ordered"@[0] != "start"@[0]);
    lemma_get_members(base, "ordered"@);
    let o = JsonV::Bool(first is Some);
    let m1 = base.push(("ordered"@, o));
    assert(members_insert(base, "ordered"@, o) == m1);
    lemma_get_members(m1, "ordered"@);
    lemma_get_members(m1, "start"@);
    assert(m1[2].0 == "ordered"@);
    match first {
        Some(n) => {
            let v = JsonV::Number(decimal(n as nat));
            let m2 = m1.push(("start"@, v));
            assert(members_insert(m1, "start"@, v) == m2);
            lemma_get_members(m2, "ordered"@);
            lemma_get_members(m2, "start"@);
            assert(m2[2].0 == "ordered"@ && m2[2].1 == o);
            assert(m2[3].0 == "start"@ && m2[3].1 == v);
            assert(members_get(m2, "ordered"@) == Some(m2[2].1));
            assert(members_get(m2, "start"@) == Some(m2[3].1));
            assert(open_tag(b, MdTagV::List(first), start, end).stack.last().node == m2);
        },
        None => {
            assert(members_get(m1, "ordered"@) == Some(m1[2].1));
            assert(open_tag(b, MdTagV::List(first), start, end).stack.last().node == m1);
        },
    }
}

/// Reading a key after binding one: the bound value for that key, and what
/// was there before for any other.
pub proof fn lemma_get_insert(m: Seq<(Seq<char>, JsonV)>, k: Seq<char>, v: JsonV, k2: Seq<char>)
    ensures
        members_get(members_insert(m, k, v), k2) == if k2 == k {
            Some(v)
        } else {
            members_get(m, k2)
        },
{
    let r = members_insert(m, k, v);
    crate::json_value::lemma_key_index(m, k);
    crate::json_value::lemma_key_index(m, k2);
    crate::json_value::lemma_key_index(r, k2);
    lemma_get_members(m, k2);
    lemma_get_members(r, k2);
    match crate::json_value::key_index(m, k) {
        Some(i) => {
            assert(r == m.update(i, (k, v)));
            assert forall|j: int| 0 <= j < r.len() implies #[trigger] r[j].0 == m[j].0 by {}
            if k2 == k {
                assert(r[i].1 == v);
                assert(r[i].0 == k2);
            } else {
                if let Some(j) = crate::json_value::key_index(m, k2) {
                    assert(j != i);
                    assert(r[j] == m[j]);
                }
            }
        },
        None => {
            assert(r == m.push((k, v)));
            if k2 == k {
                assert(r[m.len() as int].0 == k2);
                assert(r[m.len() as int].1 == v);
            } else {
                if let Some(j) = crate::json_value::key_index(m, k2) {
                    assert(r[j] == m[j]);
                }
                assert(r[m.len() as int].0 != k2);
            }
        },
    }
}

} // verus!
