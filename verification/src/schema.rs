//! The fields that the AST reference gives each node type, and the law that
//! the builder's blocks carry them.
use vstd::prelude::*;
use crate::ast_spec::{
    builder_init, build_ast_spec, close_tag, finished, flush_block, frame_new, insert_all,
    lemma_get_insert, lemma_get_members, leaf, merge_directives_spec, open_tag, pop_frame, push_block,
    push_frame, push_inline, run_from, set_top, step, BuilderV, FrameV,
};
use crate::cmark::{MdEventV, MdTagEnd, MdTagV};
use crate::event_filter::RichV;
use crate::json_value::{members_get, members_insert, JsonV};
use crate::prepass::{directive_node_spec, directive_spec, line_step, prepass_from, prepass_init, PrepassV};

verus! {

/// Whether `m` binds `k` to a string.
pub open spec fn has_str(m: Seq<(Seq<char>, JsonV)>, k: Seq<char>) -> bool {
    members_get(m, k) matches Some(JsonV::Str(_))
}

/// Whether `m` binds `k` to an array.
pub open spec fn has_arr(m: Seq<(Seq<char>, JsonV)>, k: Seq<char>) -> bool {
    members_get(m, k) matches Some(JsonV::Array(_))
}

/// Whether `m` binds `k` to an object.
pub open spec fn has_obj(m: Seq<(Seq<char>, JsonV)>, k: Seq<char>) -> bool {
    members_get(m, k) matches Some(JsonV::Object(_))
}

/// Whether `m` binds `k` to a number.
pub open spec fn has_num(m: Seq<(Seq<char>, JsonV)>, k: Seq<char>) -> bool {
    members_get(m, k) matches Some(JsonV::Number(_))
}

/// Whether `m` binds `k` to a boolean.
pub open spec fn has_bool(m: Seq<(Seq<char>, JsonV)>, k: Seq<char>) -> bool {
    members_get(m, k) matches Some(JsonV::Bool(_))
}

/// The type `t` of a node's members (empty when it has none).
pub open spec fn node_type(m: Seq<(Seq<char>, JsonV)>) -> Seq<char> {
    match members_get(m, "t"@) {
        Some(JsonV::Str(t)) => t,
        _ => Seq::empty(),
    }
}

/// The fields that a node has from the moment its frame opens: a `range`
/// array; a heading's `level` number; a fenced block's `name` string and
/// `attrs` object; a list's `ordered` flag; a table's `align` array.
pub open spec fn open_fields(m: Seq<(Seq<char>, JsonV)>) -> bool {
    let t = node_type(m);
    &&& has_arr(m, "range"@)
    &&& t == "heading"@ ==> has_num(m, "level"@)
    &&& t == "fenced"@ ==> has_str(m, "name"@) && has_obj(m, "attrs"@)
    &&& t == "list"@ ==> has_bool(m, "ordered"@)
    &&& t == "table"@ ==> has_arr(m, "align"@)
}

/// The fields that the AST reference gives a node of each type: those it
/// has from its opening on, and `children` (heading, paragraph, blockquote,
/// list item, footnote definition, directive), `raw` (fenced block),
/// `items` (list, definition list), `headers` and `rows` (table), `html`
/// (HTML block), `src` (math block), and a directive's `name` and `attrs`.
pub open spec fn block_fields(v: JsonV) -> bool {
    match v {
        JsonV::Object(m) => {
            let t = node_type(m);
            &&& open_fields(m)
            &&& (t == "heading"@ || t == "paragraph"@ || t == "blockquote"@ || t == "list_item"@
                || t == "footnote_def"@ || t == "directive"@) ==> has_arr(m, "children"@)
            &&& t == "fenced"@ ==> has_str(m, "raw"@)
            &&& (t == "list"@ || t == "definition_list"@) ==> has_arr(m, "items"@)
            &&& t == "table"@ ==> has_arr(m, "headers"@) && has_arr(m, "rows"@)
            &&& t == "html_block"@ ==> has_str(m, "html"@)
            &&& t == "math_block"@ ==> has_str(m, "src"@)
            &&& t == "directive"@ ==> has_str(m, "name"@) && has_obj(m, "attrs"@)
        },
        _ => false,
    }
}

/// The lengths of the names that the field rules tell apart.
proof fn lemma_names()
    ensures
        "t"@.len() == 1,
        "range"@.len() == 5,
        "level"@.len() == 5,
        "name"@.len() == 4,
        "attrs"@.len() == 5,
        "ordered"@.len() == 7,
        "align"@.len() == 5,
        "children"@.len() == 8,
        "raw"@.len() == 3,
        "items"@.len() == 5,
        "headers"@.len() == 7,
        "rows"@.len() == 4,
        "html"@.len() == 4,
        "src"@.len() == 3,
        "heading"@.len() == 7,
        "paragraph"@.len() == 9,
        "blockquote"@.len() == 10,
        "list_item"@.len() == 9,
        "footnote_def"@.len() == 12,
        "directive"@.len() == 9,
        "fenced"@.len() == 6,
        "list"@.len() == 4,
        "definition_list"@.len() == 15,
        "table"@.len() == 5,
        "html_block"@.len() == 10,
        "math_block"@.len() == 10,
{
    reveal_strlit("t");
    reveal_strlit("range");
    reveal_strlit("level");
    reveal_strlit("name");
    reveal_strlit("attrs");
    reveal_strlit("ordered");
    reveal_strlit("align");
    reveal_strlit("children");
    reveal_strlit("raw");
    reveal_strlit("items");
    reveal_strlit("headers");
    reveal_strlit("rows");
    reveal_strlit("html");
    reveal_strlit("src");
    reveal_strlit("heading");
    reveal_strlit("paragraph");
    reveal_strlit("blockquote");
    reveal_strlit("list_item");
    reveal_strlit("footnote_def");
    reveal_strlit("directive");
    reveal_strlit("fenced");
    reveal_strlit("list");
    reveal_strlit("definition_list");
    reveal_strlit("table");
    reveal_strlit("html_block");
    reveal_strlit("math_block");
}

/// Binding `k` keeps every other field as it was.
proof fn lemma_insert_fields(m: Seq<(Seq<char>, JsonV)>, k: Seq<char>, v: JsonV)
    ensures
        forall|k2: Seq<char>| #[trigger] members_get(members_insert(m, k, v), k2) == if k2 == k {
            Some(v)
        } else {
            members_get(m, k2)
        },
{
    assert forall|k2: Seq<char>| #[trigger] members_get(members_insert(m, k, v), k2) == if k2 == k {
        Some(v)
    } else {
        members_get(m, k2)
    } by {
        lemma_get_insert(m, k, v, k2);
    }
}

/// Whether `t` is a type that the field rules speak of.
pub open spec fn ruled(t: Seq<char>) -> bool {
    t == "heading"@ || t == "paragraph"@ || t == "blockquote"@ || t == "list_item"@ || t == "footnote_def"@
        || t == "directive"@ || t == "fenced"@ || t == "list"@ || t == "definition_list"@ || t == "table"@
        || t == "html_block"@ || t == "math_block"@
}

/// The characters that tell apart the type names of equal length.
proof fn lemma_type_chars()
    ensures
        "paragraph"@[0] == 'p',
        "list_item"@[0] == 'l',
        "directive"@[0] == 'd',
        "blockquote"@[0] == 'b',
        "html_block"@[0] == 'h',
        "html_block"@[1] == 't',
        "math_block"@[0] == 'm',
        "list"@[0] == 'l',
        "list"@[2] == 's',
        "table"@[0] == 't',
        "fenced"@[0] == 'f',
        "footnote_def"@[9] == 'd',
        "text"@.len() == 4 && "text"@[0] == 't',
        "code_span"@.len() == 9 && "code_span"@[0] == 'c',
        "math_inline"@.len() == 11,
        "raw_html"@.len() == 8,
        "footnote_ref"@.len() == 12 && "footnote_ref"@[9] == 'r',
        "soft_break"@.len() == 10 && "soft_break"@[0] == 's',
        "hard_break"@.len() == 10 && "hard_break"@[0] == 'h' && "hard_break"@[1] == 'a',
        "task_marker"@.len() == 11,
        "widget"@.len() == 6 && "widget"@[0] == 'w',
        "hr"@.len() == 2,
        "em"@.len() == 2,
        "strong"@.len() == 6 && "strong"@[0] == 's',
        "del"@.len() == 3,
        "sup"@.len() == 3,
        "sub"@.len() == 3,
        "link"@.len() == 4 && "link"@[2] == 'n',
        "image"@.len() == 5 && "image"@[0] == 'i',
        "_cell"@.len() == 5 && "_cell"@[0] == '_',
        "_def_title"@.len() == 10 && "_def_title"@[0] == '_',
        "_def_body"@.len() == 9 && "_def_body"@[0] == '_',
{
    reveal_strlit("paragraph");
    reveal_strlit("list_item");
    reveal_strlit("directive");
    reveal_strlit("blockquote");
    reveal_strlit("html_block");
    reveal_strlit("math_block");
    reveal_strlit("list");
    reveal_strlit("table");
    reveal_strlit("fenced");
    reveal_strlit("footnote_def");
    reveal_strlit("text");
    reveal_strlit("code_span");
    reveal_strlit("math_inline");
    reveal_strlit("raw_html");
    reveal_strlit("footnote_ref");
    reveal_strlit("soft_break");
    reveal_strlit("hard_break");
    reveal_strlit("task_marker");
    reveal_strlit("widget");
    reveal_strlit("hr");
    reveal_strlit("em");
    reveal_strlit("strong");
    reveal_strlit("del");
    reveal_strlit("sup");
    reveal_strlit("sub");
    reveal_strlit("link");
    reveal_strlit("image");
    reveal_strlit("_cell");
    reveal_strlit("_def_title");
    reveal_strlit("_def_body");
}

/// The members of a new node `{"t": t, "range": [...]}` followed by `extra`.
proof fn lemma_base_fields(t: Seq<char>, m: Seq<(Seq<char>, JsonV)>, r: JsonV)
    requires
        m.len() >= 2,
        m[0] == ("t"@, JsonV::Str(t)),
        m[1] == ("range"@, r),
        r is Array,
    ensures
        node_type(m) == t,
        has_arr(m, "range"@),
{
    lemma_names();
    lemma_get_members(m, "t"@);
    lemma_get_members(m, "range"@);
    assert(m[0].0 != "range"@);
    assert(members_get(m, "t"@) == Some(m[0].1));
    assert(members_get(m, "range"@) == Some(m[1].1));
}

/// A node of a type that no rule speaks of has the fields it needs once it
/// has its `range`.
proof fn lemma_plain_fields(m: Seq<(Seq<char>, JsonV)>)
    requires
        has_arr(m, "range"@),
        !ruled(node_type(m)),
    ensures
        block_fields(JsonV::Object(m)),
        open_fields(m),
{
}

/// A leaf node of a type that no rule speaks of, or a math block.
proof fn lemma_leaf_fields(t: Seq<char>, start: usize, end: usize, extra: Seq<(Seq<char>, JsonV)>)
    requires
        !ruled(t) || (t == "math_block"@ && extra.len() > 0 && extra[0].0 == "src"@ && extra[0].1 is Str),
    ensures
        block_fields(leaf(t, start, end, extra)),
{
    lemma_names();
    lemma_type_chars();
    let m = seq![("t"@, JsonV::Str(t)), ("range"@, crate::ast_spec::range_json(start, end))] + extra;
    lemma_base_fields(t, m, crate::ast_spec::range_json(start, end));
    if t == "math_block"@ {
        lemma_get_members(m, "src"@);
        assert(m[2] == extra[0]);
        assert(m[0].0 != "src"@ && m[1].0 != "src"@);
        assert(members_get(m, "src"@) == Some(m[2].1));
    }
}

/// Whether every open frame has the fields of its node's opening.
pub open spec fn frames_fields(b: BuilderV) -> bool {
    forall|k: int| 0 <= k < b.stack.len() ==> open_fields(#[trigger] b.stack[k].node)
}

/// Whether every top-level block has the fields of its type.
pub open spec fn blocks_fields(b: BuilderV) -> bool {
    forall|i: int| 0 <= i < b.blocks.len() ==> block_fields(#[trigger] b.blocks[i])
}

proof fn lemma_push_inline_fields(b: BuilderV, node: JsonV)
    requires
        frames_fields(b),
        blocks_fields(b),
        b.stack.len() == 0 ==> block_fields(node),
    ensures
        frames_fields(push_inline(b, node)),
        blocks_fields(push_inline(b, node)),
{
    let r = push_inline(b, node);
    if b.stack.len() > 0 {
        assert forall|k: int| 0 <= k < r.stack.len() implies open_fields(#[trigger] r.stack[k].node) by {
            assert(r.stack[k].node == b.stack[k].node);
        }
        assert(r.blocks == b.blocks);
    } else {
        assert forall|i: int| 0 <= i < r.blocks.len() implies block_fields(#[trigger] r.blocks[i]) by {
            if i < b.blocks.len() {
                assert(r.blocks[i] == b.blocks[i]);
            }
        }
    }
}

proof fn lemma_flush_block_fields(b: BuilderV, node: JsonV)
    requires
        frames_fields(b),
        blocks_fields(b),
        b.stack.len() == 0 ==> block_fields(node),
    ensures
        frames_fields(flush_block(b, node)),
        blocks_fields(flush_block(b, node)),
{
    let r = flush_block(b, node);
    if b.stack.len() > 0 {
        assert forall|k: int| 0 <= k < r.stack.len() implies open_fields(#[trigger] r.stack[k].node) by {
            assert(r.stack[k].node == b.stack[k].node);
        }
        assert(r.blocks == b.blocks);
    } else {
        assert forall|i: int| 0 <= i < r.blocks.len() implies block_fields(#[trigger] r.blocks[i]) by {
            if i < b.blocks.len() {
                assert(r.blocks[i] == b.blocks[i]);
            }
        }
    }
}

proof fn lemma_push_block_fields(b: BuilderV, node: JsonV)
    requires
        frames_fields(b),
        blocks_fields(b),
        block_fields(node),
    ensures
        frames_fields(push_block(b, node)),
        blocks_fields(push_block(b, node)),
{
    let r = push_block(b, node);
    assert forall|i: int| 0 <= i < r.blocks.len() implies block_fields(#[trigger] r.blocks[i]) by {
        if i < b.blocks.len() {
            assert(r.blocks[i] == b.blocks[i]);
        }
    }
}

proof fn lemma_push_frame_fields(b: BuilderV, f: FrameV)
    requires
        frames_fields(b),
        blocks_fields(b),
        open_fields(f.node),
    ensures
        frames_fields(push_frame(b, f)),
        blocks_fields(push_frame(b, f)),
{
    let r = push_frame(b, f);
    assert forall|k: int| 0 <= k < r.stack.len() implies open_fields(#[trigger] r.stack[k].node) by {
        if k < b.stack.len() {
            assert(r.stack[k] == b.stack[k]);
        }
    }
}

/// The characters that tell apart the member names of equal length.
proof fn lemma_key_chars()
    ensures
        "range"@[0] == 'r',
        "level"@[0] == 'l' && "level"@[1] == 'e',
        "attrs"@[0] == 'a' && "attrs"@[1] == 't',
        "align"@[0] == 'a' && "align"@[1] == 'l',
        "name"@[0] == 'n',
        "ordered"@[0] == 'o',
        "title"@.len() == 5 && "title"@[0] == 't',
        "label"@.len() == 5 && "label"@[0] == 'l' && "label"@[1] == 'a',
        "start"@.len() == 5 && "start"@[0] == 's',
        "href"@.len() == 4 && "href"@[0] == 'h',
        "kind"@.len() == 4 && "kind"@[0] == 'k',
        "classes"@.len() == 7 && "classes"@[0] == 'c',
        "id"@.len() == 2,
{
    reveal_strlit("range");
    reveal_strlit("level");
    reveal_strlit("attrs");
    reveal_strlit("align");
    reveal_strlit("name");
    reveal_strlit("ordered");
    reveal_strlit("title");
    reveal_strlit("label");
    reveal_strlit("start");
    reveal_strlit("href");
    reveal_strlit("kind");
    reveal_strlit("classes");
    reveal_strlit("id");
}

/// Whether `k` is a member name that the opening fields rest on.
pub open spec fn open_key(k: Seq<char>) -> bool {
    k == "t"@ || k == "range"@ || k == "level"@ || k == "name"@ || k == "ordered"@ || k == "align"@
}

/// Binding a member that no opening field rests on (or an `attrs` object)
/// keeps the opening fields.
proof fn lemma_with_keeps_open(m: Seq<(Seq<char>, JsonV)>, k: Seq<char>, v: JsonV)
    requires
        open_fields(m),
        !open_key(k),
        k == "attrs"@ ==> v is Object,
    ensures
        open_fields(members_insert(m, k, v)),
        node_type(members_insert(m, k, v)) == node_type(m),
{
    lemma_insert_fields(m, k, v);
}

/// A new frame's node: its type and range, and no other member.
proof fn lemma_new_frame(t: Seq<char>, start: usize, end: usize)
    ensures
        node_type(frame_new(t, start, end).node) == t,
        has_arr(frame_new(t, start, end).node, "range"@),
        forall|k: Seq<char>| k != "t"@ && k != "range"@ ==> #[trigger] members_get(frame_new(t, start, end).node, k) is None,
{
    let m = frame_new(t, start, end).node;
    lemma_base_fields(t, m, crate::ast_spec::range_json(start, end));
    assert forall|k: Seq<char>| k != "t"@ && k != "range"@ implies #[trigger] members_get(m, k) is None by {
        lemma_get_members(m, k);
    }
}

/// The opening fields of a new frame with `k` bound to `v`.
proof fn lemma_new_with(t: Seq<char>, start: usize, end: usize, k: Seq<char>, v: JsonV)
    requires
        k != "t"@ && k != "range"@,
    ensures
        node_type(members_insert(frame_new(t, start, end).node, k, v)) == t,
        has_arr(members_insert(frame_new(t, start, end).node, k, v), "range"@),
        members_get(members_insert(frame_new(t, start, end).node, k, v), k) == Some(v),
        forall|k2: Seq<char>| k2 != "t"@ && k2 != "range"@ && k2 != k ==> #[trigger] members_get(
            members_insert(frame_new(t, start, end).node, k, v),
            k2,
        ) is None,
{
    lemma_new_frame(t, start, end);
    lemma_insert_fields(frame_new(t, start, end).node, k, v);
}

proof fn lemma_open_tag_fields(b: BuilderV, tag: MdTagV, start: usize, end: usize)
    requires
        frames_fields(b),
        blocks_fields(b),
    ensures
        frames_fields(open_tag(b, tag, start, end)),
        blocks_fields(open_tag(b, tag, start, end)),
{
    lemma_names();
    lemma_type_chars();
    lemma_key_chars();
    match tag {
        MdTagV::Heading { level, id, classes, attrs } => {
            let lv = JsonV::Number(crate::text::decimal(crate::ast_spec::heading_level_spec(level)));
            lemma_new_with("heading"@, start, end, "level"@, lv);
            let f0 = crate::ast_spec::frame_with(frame_new("heading"@, start, end), "level"@, lv);
            assert(open_fields(f0.node));
            let f1 = match id {
                Some(i) => crate::ast_spec::frame_with(f0, "id"@, JsonV::Str(i)),
                None => f0,
            };
            if let Some(i) = id {
                lemma_with_keeps_open(f0.node, "id"@, JsonV::Str(i));
            }
            let cv = JsonV::Array(crate::ast_spec::strings_json(classes));
            lemma_with_keeps_open(f1.node, "classes"@, cv);
            let f2 = if classes.len() > 0 {
                crate::ast_spec::frame_with(f1, "classes"@, cv)
            } else {
                f1
            };
            let av = JsonV::Object(crate::ast_spec::heading_attrs(attrs));
            lemma_with_keeps_open(f2.node, "attrs"@, av);
            lemma_push_frame_fields(b, crate::ast_spec::heading_frame(level, id, classes, attrs, start, end));
        },
        MdTagV::BlockQuote(kind) => {
            let f0 = frame_new("blockquote"@, start, end);
            lemma_new_frame("blockquote"@, start, end);
            if let Some(k) = kind {
                let kv = JsonV::Str(crate::ast_spec::quote_kind_name(k));
                lemma_with_keeps_open(f0.node, "kind"@, kv);
                lemma_push_frame_fields(b, crate::ast_spec::frame_with(f0, "kind"@, kv));
            } else {
                lemma_push_frame_fields(b, f0);
            }
        },
        MdTagV::CodeBlock(info) => {
            let nv = JsonV::Str(
                match info {
                    Some(i) => crate::attrs::info_name(i),
                    None => Seq::empty(),
                },
            );
            let av = JsonV::Object(
                match info {
                    Some(i) => crate::attrs::info_attrs(i),
                    None => Seq::empty(),
                },
            );
            lemma_new_with("fenced"@, start, end, "name"@, nv);
            let f0 = crate::ast_spec::frame_with(frame_new("fenced"@, start, end), "name"@, nv);
            lemma_insert_fields(f0.node, "attrs"@, av);
            let f1 = crate::ast_spec::frame_with(f0, "attrs"@, av);
            assert(open_fields(f1.node));
            lemma_push_frame_fields(b, f1);
        },
        MdTagV::List(first) => {
            lemma_new_with("list"@, start, end, "ordered"@, JsonV::Bool(first is Some));
            let f0 = crate::ast_spec::frame_with(frame_new("list"@, start, end), "ordered"@, JsonV::Bool(first is Some));
            assert(open_fields(f0.node));
            if let Some(n) = first {
                let sv = JsonV::Number(crate::text::decimal(n as nat));
                lemma_with_keeps_open(f0.node, "start"@, sv);
                lemma_push_frame_fields(b, crate::ast_spec::frame_with(f0, "start"@, sv));
            } else {
                lemma_push_frame_fields(b, f0);
            }
        },
        MdTagV::FootnoteDefinition(label) => {
            lemma_new_frame("footnote_def"@, start, end);
            let f0 = frame_new("footnote_def"@, start, end);
            lemma_with_keeps_open(f0.node, "label"@, JsonV::Str(label));
            lemma_push_frame_fields(b, crate::ast_spec::frame_with(f0, "label"@, JsonV::Str(label)));
        },
        MdTagV::Table(aligns) => {
            let av = JsonV::Array(aligns.map_values(|a: crate::cmark::Align| JsonV::Str(crate::ast_spec::align_name(a))));
            lemma_new_with("table"@, start, end, "align"@, av);
            let f0 = crate::ast_spec::frame_with(frame_new("table"@, start, end), "align"@, av);
            assert(open_fields(f0.node));
            lemma_push_frame_fields(BuilderV { headers: Seq::empty(), rows: Seq::empty(), ..b }, f0);
        },
        MdTagV::Link { dest_url, title } => {
            lemma_new_frame("link"@, start, end);
            let f0 = frame_new("link"@, start, end);
            lemma_with_keeps_open(f0.node, "href"@, JsonV::Str(dest_url));
            let f1 = crate::ast_spec::frame_with(f0, "href"@, JsonV::Str(dest_url));
            lemma_with_keeps_open(f1.node, "title"@, JsonV::Str(title));
            lemma_push_frame_fields(b, crate::ast_spec::frame_with(f1, "title"@, JsonV::Str(title)));
        },
        MdTagV::Image { dest_url, title } => {
            lemma_new_frame("image"@, start, end);
            let f0 = frame_new("image"@, start, end);
            lemma_with_keeps_open(f0.node, "src"@, JsonV::Str(dest_url));
            let f1 = crate::ast_spec::frame_with(f0, "src"@, JsonV::Str(dest_url));
            lemma_with_keeps_open(f1.node, "title"@, JsonV::Str(title));
            lemma_push_frame_fields(b, crate::ast_spec::frame_with(f1, "title"@, JsonV::Str(title)));
        },
        MdTagV::TableHead | MdTagV::TableRow | MdTagV::MetadataBlock => {},
        _ => {
            let t: Seq<char> = match tag {
                MdTagV::Paragraph => "paragraph"@,
                MdTagV::HtmlBlock => "html_block"@,
                MdTagV::Item => "list_item"@,
                MdTagV::TableCell => "_cell"@,
                MdTagV::DefinitionList => "definition_list"@,
                MdTagV::DefinitionListTitle => "_def_title"@,
                MdTagV::DefinitionListDefinition => "_def_body"@,
                MdTagV::Emphasis => "em"@,
                MdTagV::Strong => "strong"@,
                MdTagV::Strikethrough => "del"@,
                MdTagV::Superscript => "sup"@,
                _ => "sub"@,
            };
            lemma_new_frame(t, start, end);
            lemma_push_frame_fields(b, frame_new(t, start, end));
        },
    }
}

/// The type of node that a closing tag closes; `None` for the tags that
/// close no frame (a table head or row, a metadata block).
pub open spec fn end_type(e: MdTagEnd) -> Option<Seq<char>> {
    match e {
        MdTagEnd::Paragraph => Some("paragraph"@),
        MdTagEnd::Heading(_) => Some("heading"@),
        MdTagEnd::BlockQuote => Some("blockquote"@),
        MdTagEnd::CodeBlock => Some("fenced"@),
        MdTagEnd::HtmlBlock => Some("html_block"@),
        MdTagEnd::List => Some("list"@),
        MdTagEnd::Item => Some("list_item"@),
        MdTagEnd::FootnoteDefinition => Some("footnote_def"@),
        MdTagEnd::DefinitionList => Some("definition_list"@),
        MdTagEnd::DefinitionListTitle => Some("_def_title"@),
        MdTagEnd::DefinitionListDefinition => Some("_def_body"@),
        MdTagEnd::Table => Some("table"@),
        MdTagEnd::TableCell => Some("_cell"@),
        MdTagEnd::Emphasis => Some("em"@),
        MdTagEnd::Strong => Some("strong"@),
        MdTagEnd::Strikethrough => Some("del"@),
        MdTagEnd::Superscript => Some("sup"@),
        MdTagEnd::Subscript => Some("sub"@),
        MdTagEnd::Link => Some("link"@),
        MdTagEnd::Image => Some("image"@),
        MdTagEnd::TableHead | MdTagEnd::TableRow | MdTagEnd::MetadataBlock => None,
    }
}

/// Whether the event, in the state `b`, closes only a frame of its own
/// kind (events that close nothing always do).
pub open spec fn closes_own(b: BuilderV, e: RichV) -> bool {
    match e {
        RichV::Cmark(MdEventV::End(t), _, _) => match end_type(t) {
            Some(ty) => b.stack.len() > 0 ==> node_type(b.stack.last().node) == ty,
            None => true,
        },
        _ => true,
    }
}

/// Whether every closing event of `events[i..]`, run from `b`, closes a
/// frame of its own kind.
pub open spec fn closes_own_from(events: Seq<RichV>, i: int, b: BuilderV) -> bool
    decreases events.len() - i,
{
    if i < 0 || i >= events.len() {
        true
    } else {
        closes_own(b, events[i]) && closes_own_from(events, i + 1, step(b, events[i]))
    }
}

/// The node that closing the frame `f` with `key` bound to `v` gives has the
/// fields of its type, when `v` is the value its type asks under `key`.
proof fn lemma_finished_fields(f: FrameV, key: Seq<char>, v: JsonV)
    requires
        open_fields(f.node),
        !open_key(key),
        key == "attrs"@ ==> v is Object,
        ({
            let t = node_type(f.node);
            let m = members_insert(f.node, key, v);
            &&& (t == "heading"@ || t == "paragraph"@ || t == "blockquote"@ || t == "list_item"@
                || t == "footnote_def"@ || t == "directive"@) ==> has_arr(m, "children"@)
            &&& t == "fenced"@ ==> has_str(m, "raw"@)
            &&& (t == "list"@ || t == "definition_list"@) ==> has_arr(m, "items"@)
            &&& t == "table"@ ==> has_arr(m, "headers"@) && has_arr(m, "rows"@)
            &&& t == "html_block"@ ==> has_str(m, "html"@)
            &&& t == "math_block"@ ==> has_str(m, "src"@)
            &&& t == "directive"@ ==> has_str(m, "name"@) && has_obj(m, "attrs"@)
        }),
    ensures
        block_fields(JsonV::Object(members_insert(f.node, key, v))),
{
    lemma_with_keeps_open(f.node, key, v);
}

proof fn lemma_pop_fields(b: BuilderV)
    requires
        frames_fields(b),
        b.stack.len() > 0,
    ensures
        frames_fields(pop_frame(b)),
        open_fields(b.stack.last().node),
{
    let p = pop_frame(b);
    assert(open_fields(b.stack[b.stack.len() - 1].node));
    assert forall|k: int| 0 <= k < p.stack.len() implies open_fields(#[trigger] p.stack[k].node) by {
        assert(p.stack[k] == b.stack[k]);
    }
}

proof fn lemma_close_tag_fields(b: BuilderV, end: MdTagEnd)
    requires
        frames_fields(b),
        blocks_fields(b),
        end_type(end) matches Some(ty) ==> (b.stack.len() > 0 ==> node_type(b.stack.last().node) == ty),
    ensures
        frames_fields(close_tag(b, end)),
        blocks_fields(close_tag(b, end)),
{
    lemma_names();
    lemma_type_chars();
    lemma_key_chars();
    reveal_strlit("children");
    reveal_strlit("raw");
    reveal_strlit("items");
    reveal_strlit("headers");
    reveal_strlit("rows");
    reveal_strlit("html");
    if b.stack.len() > 0 {
        let f = b.stack.last();
        let p = pop_frame(b);
        lemma_pop_fields(b);
        let t = node_type(f.node);
        assert(p.blocks == b.blocks);
        match end {
            MdTagEnd::TableHead | MdTagEnd::TableRow | MdTagEnd::MetadataBlock => {},
            MdTagEnd::TableCell => {
                assert(close_tag(b, end).stack == p.stack && close_tag(b, end).blocks == p.blocks);
            },
            MdTagEnd::CodeBlock => {
                let v = JsonV::Str(crate::text::trim_end(f.text));
                lemma_insert_fields(f.node, "raw"@, v);
                lemma_finished_fields(f, "raw"@, v);
                lemma_flush_block_fields(p, JsonV::Object(members_insert(f.node, "raw"@, v)));
            },
            MdTagEnd::HtmlBlock => {
                let v = JsonV::Str(f.text);
                lemma_insert_fields(f.node, "html"@, v);
                lemma_finished_fields(f, "html"@, v);
                lemma_flush_block_fields(p, JsonV::Object(members_insert(f.node, "html"@, v)));
            },
            MdTagEnd::List | MdTagEnd::DefinitionList => {
                let v = JsonV::Array(f.inline);
                lemma_insert_fields(f.node, "items"@, v);
                lemma_finished_fields(f, "items"@, v);
                lemma_flush_block_fields(p, finished(f, "items"@));
            },
            MdTagEnd::Table => {
                let m1 = members_insert(f.node, "headers"@, JsonV::Array(b.headers));
                let m2 = members_insert(m1, "rows"@, JsonV::Array(b.rows));
                lemma_insert_fields(f.node, "headers"@, JsonV::Array(b.headers));
                lemma_insert_fields(m1, "rows"@, JsonV::Array(b.rows));
                lemma_with_keeps_open(f.node, "headers"@, JsonV::Array(b.headers));
                lemma_with_keeps_open(m1, "rows"@, JsonV::Array(b.rows));
                assert(block_fields(JsonV::Object(m2)));
                let q = BuilderV { headers: Seq::empty(), rows: Seq::empty(), ..p };
                lemma_flush_block_fields(q, JsonV::Object(m2));
            },
            MdTagEnd::Emphasis | MdTagEnd::Strong | MdTagEnd::Strikethrough
            | MdTagEnd::Superscript | MdTagEnd::Subscript | MdTagEnd::Link | MdTagEnd::Image
            | MdTagEnd::DefinitionListTitle | MdTagEnd::DefinitionListDefinition => {
                let v = JsonV::Array(f.inline);
                lemma_insert_fields(f.node, "children"@, v);
                lemma_finished_fields(f, "children"@, v);
                lemma_push_inline_fields(p, finished(f, "children"@));
            },
            _ => {
                let v = JsonV::Array(f.inline);
                lemma_insert_fields(f.node, "children"@, v);
                lemma_finished_fields(f, "children"@, v);
                lemma_flush_block_fields(p, finished(f, "children"@));
            },
        }
    }
}

proof fn lemma_step_fields(b: BuilderV, e: RichV)
    requires
        frames_fields(b),
        blocks_fields(b),
        closes_own(b, e),
    ensures
        frames_fields(step(b, e)),
        blocks_fields(step(b, e)),
{
    lemma_names();
    lemma_type_chars();
    lemma_key_chars();
    match e {
        RichV::Cmark(ev, start, end) => match ev {
            MdEventV::Start(tag) => lemma_open_tag_fields(b, tag, start, end),
            MdEventV::End(t) => lemma_close_tag_fields(b, t),
            MdEventV::Rule => {
                lemma_leaf_fields("hr"@, start, end, Seq::empty());
                lemma_flush_block_fields(b, leaf("hr"@, start, end, Seq::empty()));
            },
            MdEventV::TaskListMarker(c) => {
                let x = seq![("checked"@, JsonV::Bool(c))];
                lemma_leaf_fields("task_marker"@, start, end, x);
                lemma_push_inline_fields(b, leaf("task_marker"@, start, end, x));
            },
            MdEventV::Text(t) => {
                let x = seq![("text"@, JsonV::Str(t))];
                lemma_leaf_fields("text"@, start, end, x);
                lemma_push_inline_fields(b, leaf("text"@, start, end, x));
            },
            MdEventV::Code(t) => {
                let x = seq![("text"@, JsonV::Str(t))];
                lemma_leaf_fields("code_span"@, start, end, x);
                lemma_push_inline_fields(b, leaf("code_span"@, start, end, x));
            },
            MdEventV::InlineMath(t) => {
                let x = seq![("src"@, JsonV::Str(t))];
                lemma_leaf_fields("math_inline"@, start, end, x);
                lemma_push_inline_fields(b, leaf("math_inline"@, start, end, x));
            },
            MdEventV::DisplayMath(t) => {
                let x = seq![("src"@, JsonV::Str(t))];
                reveal_strlit("src");
                lemma_leaf_fields("math_block"@, start, end, x);
                lemma_push_block_fields(b, leaf("math_block"@, start, end, x));
            },
            MdEventV::Html(t) | MdEventV::InlineHtml(t) => {
                let x = seq![("html"@, JsonV::Str(t))];
                lemma_leaf_fields("raw_html"@, start, end, x);
                let node = leaf("raw_html"@, start, end, x);
                if b.stack.len() == 0 {
                    lemma_push_block_fields(b, node);
                } else if b.stack.last().raw {
                    let f = b.stack.last();
                    let r = set_top(b, FrameV { text: f.text + t, ..f });
                    assert forall|k: int| 0 <= k < r.stack.len() implies open_fields(#[trigger] r.stack[k].node) by {
                        assert(r.stack[k].node == b.stack[k].node);
                    }
                } else {
                    lemma_push_inline_fields(b, node);
                }
            },
            MdEventV::FootnoteReference(l) => {
                let x = seq![("label"@, JsonV::Str(l))];
                lemma_leaf_fields("footnote_ref"@, start, end, x);
                lemma_push_inline_fields(b, leaf("footnote_ref"@, start, end, x));
            },
            MdEventV::SoftBreak => {
                lemma_leaf_fields("soft_break"@, start, end, Seq::empty());
                lemma_push_inline_fields(b, leaf("soft_break"@, start, end, Seq::empty()));
            },
            MdEventV::HardBreak => {
                lemma_leaf_fields("hard_break"@, start, end, Seq::empty());
                lemma_push_inline_fields(b, leaf("hard_break"@, start, end, Seq::empty()));
            },
        },
        RichV::Widget { name, text, attrs, start, end } => {
            let x = seq![
                ("name"@, JsonV::Str(name)),
                ("text"@, JsonV::Str(text)),
                ("attrs"@, JsonV::Object(attrs)),
            ];
            lemma_leaf_fields("widget"@, start, end, x);
            lemma_push_inline_fields(b, leaf("widget"@, start, end, x));
        },
        RichV::LinkImageAttrs(attrs) => {
            if b.stack.len() > 0 {
                let f = b.stack.last();
                let existing = match members_get(f.node, "attrs"@) {
                    Some(JsonV::Object(m)) => m,
                    _ => Seq::empty(),
                };
                let v = JsonV::Object(insert_all(existing, attrs));
                assert(open_fields(b.stack[b.stack.len() - 1].node));
                lemma_with_keeps_open(f.node, "attrs"@, v);
                let r = step(b, e);
                assert forall|k: int| 0 <= k < r.stack.len() implies open_fields(#[trigger] r.stack[k].node) by {
                    if k < b.stack.len() - 1 {
                        assert(r.stack[k] == b.stack[k]);
                    }
                }
            }
        },
    }
}

proof fn lemma_run_fields(events: Seq<RichV>, i: int, b: BuilderV)
    requires
        frames_fields(b),
        blocks_fields(b),
        closes_own_from(events, i, b),
    ensures
        blocks_fields(run_from(events, i, b)),
    decreases events.len() - i,
{
    if 0 <= i < events.len() {
        lemma_step_fields(b, events[i]);
        lemma_run_fields(events, i + 1, step(b, events[i]));
    }
}

proof fn lemma_merge_fields(blocks: Seq<JsonV>, directives: Seq<(usize, JsonV)>)
    requires
        forall|i: int| 0 <= i < blocks.len() ==> block_fields(#[trigger] blocks[i]),
        forall|i: int| 0 <= i < directives.len() ==> block_fields(#[trigger] directives[i].1),
    ensures
        forall|i: int|
            0 <= i < merge_directives_spec(blocks, directives).len() ==> block_fields(
                #[trigger] merge_directives_spec(blocks, directives)[i],
            ),
    decreases directives.len(),
{
    if directives.len() > 0 {
        let rest = directives.drop_last();
        assert forall|i: int| 0 <= i < rest.len() implies block_fields(#[trigger] rest[i].1) by {
            assert(rest[i] == directives[i]);
        }
        lemma_merge_fields(blocks, rest);
        let m = merge_directives_spec(blocks, rest);
        let (sb, node) = directives.last();
        assert(block_fields(directives[directives.len() - 1].1));
        crate::ast_spec::lemma_insert_index(m, sb, 0);
        let j = crate::ast_spec::insert_index(m, sb, 0);
        let r = m.insert(j, node);
        assert forall|i: int| 0 <= i < r.len() implies block_fields(#[trigger] r[i]) by {
            if i < j {
                assert(r[i] == m[i]);
            } else if i > j {
                assert(r[i] == m[i - 1]);
            }
        }
    }
}

/// Every block of the AST has the fields that the AST reference gives its
/// type, given directive nodes that do, whenever every closing event of the
/// stream closes a frame of its own kind (as in a stream whose start and
/// end events are balanced).
pub proof fn lemma_build_ast_fields(events: Seq<RichV>, directives: Seq<(usize, JsonV)>)
    requires
        closes_own_from(events, 0, builder_init()),
        forall|i: int| 0 <= i < directives.len() ==> block_fields(#[trigger] directives[i].1),
    ensures
        forall|i: int|
            0 <= i < build_ast_spec(events, directives).len() ==> block_fields(
                #[trigger] build_ast_spec(events, directives)[i],
            ),
{
    lemma_run_fields(events, 0, builder_init());
    lemma_merge_fields(run_from(events, 0, builder_init()).blocks, directives);
}

/// A directive node has the fields of its type.
proof fn lemma_directive_node_fields(
    name: Seq<char>,
    attrs: Seq<(Seq<char>, JsonV)>,
    children: Seq<JsonV>,
    start: usize,
    end: usize,
)
    ensures
        block_fields(directive_node_spec(name, attrs, children, start, end)),
{
    lemma_names();
    lemma_type_chars();
    lemma_key_chars();
    reveal_strlit("directive");
    reveal_strlit("children");
    let m = seq![
        ("t"@, JsonV::Str("directive"@)),
        ("name"@, JsonV::Str(name)),
        ("attrs"@, JsonV::Object(attrs)),
        ("children"@, JsonV::Array(children)),
        ("range"@, crate::ast_spec::range_json(start, end)),
    ];
    lemma_get_members(m, "t"@);
    lemma_get_members(m, "name"@);
    lemma_get_members(m, "attrs"@);
    lemma_get_members(m, "children"@);
    lemma_get_members(m, "range"@);
    assert(members_get(m, "t"@) == Some(m[0].1));
    assert(members_get(m, "name"@) == Some(m[1].1));
    assert(members_get(m, "attrs"@) == Some(m[2].1));
    assert(members_get(m, "children"@) == Some(m[3].1));
    assert(members_get(m, "range"@) == Some(m[4].1));
}

/// Whether every entry of a directive table has the fields of its type.
pub open spec fn directives_fields(d: Seq<(usize, JsonV)>) -> bool {
    forall|i: int| 0 <= i < d.len() ==> block_fields(#[trigger] d[i].1)
}

proof fn lemma_prepass_fields(s: Seq<char>, i: int, st: PrepassV)
    requires
        directives_fields(st.directives),
    ensures
        directives_fields(prepass_from(s, i, st).directives),
    decreases s.len() - i,
{
    if 0 <= i < s.len() {
        let e = crate::event_filter::line_end(s, i);
        if i < e <= s.len() {
            let r = line_step(s, i, e, st);
            assert(directives_fields(r.directives)) by {
                assert forall|k: int| 0 <= k < r.directives.len() implies block_fields(#[trigger] r.directives[k].1) by {
                    if k < st.directives.len() {
                        assert(r.directives[k] == st.directives[k]);
                    } else {
                        let a = i;
                        let line = s.subrange(a, e);
                        let indent = crate::prepass::run_len(line, ' ');
                        let t = line.subrange(indent as int, line.len() as int);
                        let st1 = crate::prepass::fence_step(st, indent, t);
                        let f = st1.stack.last();
                        let dp = directive_spec(s.subrange(f.body, a));
                        lemma_directive_node_fields(
                            f.name,
                            f.attrs,
                            crate::prepass::masked_ast(dp),
                            crate::prepass::byte_at(s, f.start),
                            crate::prepass::byte_at(s, e),
                        );
                    }
                }
            }
            lemma_prepass_fields(s, e, r);
        }
    }
}

/// Every entry of the directive table has the fields of a directive node.
pub proof fn lemma_directives_fields(s: Seq<char>)
    ensures
        directives_fields(directive_spec(s).1),
{
    lemma_prepass_fields(s, 0, prepass_init());
}

} // verus!
