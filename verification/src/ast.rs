//! Stack-based Markdown AST builder.
//!
//! [`build_ast`] turns the enriched event stream into the nested JSON block
//! tree. Every node carries a `"t"` field (its type) and a `"range"` field
//! (its byte range in the source). Block nodes appear at the top level;
//! inline nodes nest inside the `"children"` arrays of their parent.
use vstd::prelude::*;
use crate::ast_spec::{
    align_name, block_start, build_ast_spec, builder_init, close_tag, cmark_step, digits_value, finished, flush_block, frame_new, frame_with, goes_before, heading_attrs,
    heading_frame, heading_level_spec, insert_all, insert_index, leaf, merge_directives_spec,
    node_is_break, node_text, number_as_u64, open_tag, pop_frame, push_block, push_frame, set_top,
    push_inline, quote_kind_name, range_json, run_from, step, strings_json, BuilderV,
    FrameV};
use crate::attrs::parse_fence_info;
use crate::cmark::{opt_view, Align, Level, MdEvent, MdTag, MdTagEnd, QuoteKind};
use crate::event_filter::{rich_view, RichEvent};
use crate::json_value::{
    clone_json, clone_members, group_json_view, json_get, members_lookup, lemma_view_items, lemma_view_members, lemma_view_members_concat,
    obj_insert, push_member, view_items, view_members, Json, JsonV};
use crate::text::{decimal_string, own, str_chars, str_eq, string_from_chars, trim_end_len};

verus! {

broadcast use group_json_view;

/// One open frame of the builder.
pub struct Frame {
    /// The node being assembled.
    pub node: Vec<(String, Json)>,
    /// Inline children accumulated inside this frame.
    pub inline: Vec<Json>,
    /// Raw text accumulated by code blocks and HTML blocks.
    pub text: Vec<char>,
    /// Whether this is a `fenced` or `html_block` frame.
    pub raw: bool,
}

impl View for Frame {
    type V = FrameV;

    open spec fn view(&self) -> FrameV {
        FrameV {
            node: view_members(self.node@),
            inline: view_items(self.inline@),
            text: self.text@,
            raw: self.raw,
        }
    }
}

/// The builder: top-level blocks, open frames and table state.
pub struct AstBuilder {
    pub blocks: Vec<Json>,
    pub stack: Vec<Frame>,
    pub in_table_head: bool,
    pub table_headers: Vec<Json>,
    pub table_rows: Vec<Json>,
    pub current_row: Vec<Json>,
}

pub open spec fn frames_view(s: Seq<Frame>) -> Seq<FrameV> {
    s.map_values(|f: Frame| f@)
}

impl View for AstBuilder {
    type V = BuilderV;

    open spec fn view(&self) -> BuilderV {
        BuilderV {
            blocks: view_items(self.blocks@),
            stack: frames_view(self.stack@),
            in_table_head: self.in_table_head,
            headers: view_items(self.table_headers@),
            rows: view_items(self.table_rows@),
            row: view_items(self.current_row@),
        }
    }
}

/// `[start, end]`.
pub fn range_node(start: usize, end: usize) -> (r: Json)
    ensures
        r@ == range_json(start, end),
{
    let mut v: Vec<Json> = Vec::new();
    v.push(Json::Number(decimal_string(start as u64)));
    v.push(Json::Number(decimal_string(end as u64)));
    assert(view_items(v@) =~= seq![
        JsonV::Number(crate::text::decimal(start as nat)),
        JsonV::Number(crate::text::decimal(end as nat)),
    ]);
    Json::Array(v)
}

/// `{"t": t, "range": [start, end], ..extra}`.
pub fn leaf_node(t: &str, start: usize, end: usize, extra: Vec<(String, Json)>) -> (r: Json)
    ensures
        r@ == leaf(t@, start, end, view_members(extra@)),
{
    let mut m: Vec<(String, Json)> = Vec::new();
    assert(view_members(m@) =~= Seq::empty());
    push_member(&mut m, "t", Json::Str(own(t)));
    push_member(&mut m, "range", range_node(start, end));
    let ghost head = m@;
    let mut extra = extra;
    let ghost ex = extra@;
    m.append(&mut extra);
    proof {
        lemma_view_members_concat(head, ex);
        assert(view_members(head) =~= seq![("t"@, JsonV::Str(t@)), ("range"@, range_json(start, end))]);
    }
    Json::Object(m)
}

/// One member `key: val`.
pub fn member(key: &str, val: Json) -> (r: Vec<(String, Json)>)
    ensures
        view_members(r@) == seq![(key@, val@)],
{
    let mut m: Vec<(String, Json)> = Vec::new();
    assert(view_members(m@) =~= Seq::empty());
    push_member(&mut m, key, val);
    assert(view_members(m@) =~= seq![(key@, val@)]);
    m
}

impl Frame {
    /// A new frame for a node of type `t`.
    pub fn new(t: &str, start: usize, end: usize) -> (f: Frame)
        ensures
            f@ == frame_new(t@, start, end),
    {
        let mut node: Vec<(String, Json)> = Vec::new();
        assert(view_members(node@) =~= Seq::empty());
        push_member(&mut node, "t", Json::Str(own(t)));
        push_member(&mut node, "range", range_node(start, end));
        let raw = str_eq(t, "fenced") || str_eq(t, "html_block");
        let f = Frame { node, inline: Vec::new(), text: Vec::new(), raw };
        assert(f@.node =~= frame_new(t@, start, end).node);
        assert(f@.inline =~= Seq::empty());
        f
    }

    /// This frame with `key` bound to `val` in its node.
    pub fn with(self, key: &str, val: Json) -> (f: Frame)
        ensures
            f@ == frame_with(self@, key@, val@),
    {
        let mut f = self;
        obj_insert(&mut f.node, own(key), val);
        f
    }
}

/// The characters of the string `text` member of `node`, if it has one.
fn node_text_chars(node: &Json) -> (r: Option<Vec<char>>)
    ensures
        match r {
            Some(v) => node_text(node@) == Some(v@),
            None => node_text(node@) is None,
        },
{
    match json_get(node, "text") {
        Some(Json::Str(s)) => Some(str_chars(s.as_str())),
        _ => None,
    }
}

/// Whether `node` is a soft or hard line break node.
fn node_is_break_exec(node: &Json) -> (r: bool)
    ensures
        r == node_is_break(node@),
{
    match json_get(node, "t") {
        Some(Json::Str(s)) => {
            let r = str_eq(s.as_str(), "soft_break") || str_eq(s.as_str(), "hard_break");
            proof {
                if !r {
                    assert(JsonV::Str(s@) != JsonV::Str("soft_break"@));
                    assert(JsonV::Str(s@) != JsonV::Str("hard_break"@));
                }
            }
            r
        },
        _ => false,
    }
}

impl AstBuilder {
    /// An empty builder.
    pub fn new() -> (b: AstBuilder)
        ensures
            b@ == builder_init(),
    {
        let b = AstBuilder {
            blocks: Vec::new(),
            stack: Vec::new(),
            in_table_head: false,
            table_headers: Vec::new(),
            table_rows: Vec::new(),
            current_row: Vec::new(),
        };
        assert(b@.blocks =~= Seq::empty());
        assert(b@.stack =~= Seq::empty());
        assert(b@.headers =~= Seq::empty());
        assert(b@.rows =~= Seq::empty());
        assert(b@.row =~= Seq::empty());
        b
    }

    /// Removes the innermost frame.
    fn pop_top(&mut self) -> (f: Frame)
        requires
            old(self).stack.len() > 0,
        ensures
            f@ == old(self)@.stack.last(),
            final(self)@ == pop_frame(old(self)@),
    {
        let f = self.stack.pop().unwrap();
        assert(frames_view(self.stack@) =~= frames_view(old(self).stack@).drop_last());
        f
    }

    /// Opens the frame `f`.
    fn push_top(&mut self, f: Frame)
        ensures
            final(self)@ == push_frame(old(self)@, f@),
    {
        self.stack.push(f);
        assert(frames_view(self.stack@) =~= frames_view(old(self).stack@).push(f@));
    }

    /// Adds an inline node to the innermost frame, or to the top level.
    pub fn push_inline(&mut self, node: Json)
        ensures
            final(self)@ == push_inline(old(self)@, node@),
    {
        let text = node_text_chars(&node);
        let is_break = node_is_break_exec(&node);
        if self.stack.len() > 0 {
            let ghost b0 = self@;
            let mut f = self.pop_top();
            let ghost f0 = f@;
            if f.raw && text.is_some() {
                let t = text.unwrap();
                let mut i: usize = 0;
                while i < t.len()
                    invariant
                        i <= t.len(),
                        f@ == (FrameV { text: f0.text + t@.subrange(0, i as int), ..f0 }),
                    decreases t.len() - i,
                {
                    f.text.push(t[i]);
                    assert(f@.text =~= f0.text + t@.subrange(0, i + 1));
                    i = i + 1;
                }
                assert(t@.subrange(0, t@.len() as int) =~= t@);
            } else if f.raw && is_break {
                f.text.push('\n');
            } else {
                f.inline.push(node);
            }
            self.push_top(f);
            assert(self@.stack =~= b0.stack.update(b0.stack.len() - 1, f@));
        } else {
            self.blocks.push(node);
        }
    }

    /// Appends `t` to the raw text of the innermost frame.
    fn append_raw(&mut self, t: &str)
        requires
            old(self).stack.len() > 0,
        ensures
            final(self)@ == set_top(
                old(self)@,
                FrameV { text: old(self)@.stack.last().text + t@, ..old(self)@.stack.last() },
            ),
    {
        let c = str_chars(t);
        let ghost b0 = self@;
        let mut f = self.pop_top();
        let ghost f0 = f@;
        let mut i: usize = 0;
        while i < c.len()
            invariant
                i <= c.len(),
                f@ == (FrameV { text: f0.text + c@.subrange(0, i as int), ..f0 }),
            decreases c.len() - i,
        {
            f.text.push(c[i]);
            assert(f@.text =~= f0.text + c@.subrange(0, i + 1));
            i = i + 1;
        }
        assert(c@.subrange(0, c@.len() as int) =~= c@);
        self.push_top(f);
        assert(self@.stack =~= b0.stack.update(b0.stack.len() - 1, f@));
    }

    /// Adds a finished block node to the innermost frame, or to the top level.
    pub fn flush_block(&mut self, node: Json)
        ensures
            final(self)@ == flush_block(old(self)@, node@),
    {
        if self.stack.len() > 0 {
            let ghost b0 = self@;
            let mut f = self.pop_top();
            f.inline.push(node);
            self.push_top(f);
            assert(self@.stack =~= b0.stack.update(b0.stack.len() - 1, f@));
        } else {
            self.blocks.push(node);
        }
    }

    /// Adds a leaf block node directly to the top level.
    pub fn push_block(&mut self, node: Json)
        ensures
            final(self)@ == push_block(old(self)@, node@),
    {
        self.blocks.push(node);
    }
}

/// The JSON strings of `v`.
fn strings_node(v: Vec<String>) -> (r: Vec<Json>)
    ensures
        view_items(r@) == strings_json(v@.map_values(|c: String| c@)),
{
    let ghost vv = v@.map_values(|c: String| c@);
    let mut r: Vec<Json> = Vec::new();
    let mut i: usize = 0;
    while i < v.len()
        invariant
            i <= v.len(),
            vv == v@.map_values(|c: String| c@),
            view_items(r@) == strings_json(vv.subrange(0, i as int)),
        decreases v.len() - i,
    {
        r.push(Json::Str(v[i].clone()));
        assert(strings_json(vv.subrange(0, i + 1)) =~= strings_json(vv.subrange(0, i as int)).push(
            JsonV::Str(v@[i as int]@),
        ));
        i = i + 1;
    }
    assert(vv.subrange(0, vv.len() as int) =~= vv);
    r
}

/// The attributes object of a heading.
fn heading_attrs_node(a: Vec<(String, Option<String>)>) -> (r: Vec<(String, Json)>)
    ensures
        view_members(r@) == heading_attrs(
            a@.map_values(|x: (String, Option<String>)| (x.0@, opt_view(x.1))),
        ),
{
    let ghost av = a@.map_values(|x: (String, Option<String>)| (x.0@, opt_view(x.1)));
    let mut r: Vec<(String, Json)> = Vec::new();
    assert(view_members(r@) =~= Seq::empty());
    let mut i: usize = 0;
    while i < a.len()
        invariant
            i <= a.len(),
            av == a@.map_values(|x: (String, Option<String>)| (x.0@, opt_view(x.1))),
            view_members(r@) == heading_attrs(av.subrange(0, i as int)),
        decreases a.len() - i,
    {
        let v = match &a[i].1 {
            Some(s) => Json::Str(s.clone()),
            None => Json::Null,
        };
        obj_insert(&mut r, a[i].0.clone(), v);
        assert(av.subrange(0, i + 1).drop_last() =~= av.subrange(0, i as int));
        i = i + 1;
    }
    assert(av.subrange(0, av.len() as int) =~= av);
    r
}

/// The frame of a heading.
fn heading_frame_exec(
    level: Level,
    id: Option<String>,
    classes: Vec<String>,
    attrs: Vec<(String, Option<String>)>,
    start: usize,
    end: usize,
) -> (f: Frame)
    ensures
        f@ == heading_frame(
            level,
            opt_view(id),
            classes@.map_values(|c: String| c@),
            attrs@.map_values(|x: (String, Option<String>)| (x.0@, opt_view(x.1))),
            start,
            end,
        ),
{
    let mut f = Frame::new("heading", start, end).with(
        "level",
        Json::Number(decimal_string(heading_level(level) as u64)),
    );
    match id {
        Some(i) => {
            f = f.with("id", Json::Str(i));
        },
        None => {},
    }
    if classes.len() > 0 {
        f = f.with("classes", Json::Array(strings_node(classes)));
    }
    if attrs.len() > 0 {
        f = f.with("attrs", Json::Object(heading_attrs_node(attrs)));
    }
    f
}

/// The column alignment names of a table.
fn aligns_node(a: Vec<Align>) -> (r: Vec<Json>)
    ensures
        view_items(r@) == a@.map_values(|x: Align| JsonV::Str(align_name(x))),
{
    let mut r: Vec<Json> = Vec::new();
    let mut i: usize = 0;
    while i < a.len()
        invariant
            i <= a.len(),
            view_items(r@) == a@.subrange(0, i as int).map_values(|x: Align| JsonV::Str(align_name(x))),
        decreases a.len() - i,
    {
        r.push(Json::Str(own(col_align(a[i]))));
        assert(a@.subrange(0, i + 1).map_values(|x: Align| JsonV::Str(align_name(x))) =~= a@.subrange(
            0,
            i as int,
        ).map_values(|x: Align| JsonV::Str(align_name(x))).push(JsonV::Str(align_name(a@[i as int]))));
        i = i + 1;
    }
    assert(a@.subrange(0, a@.len() as int) =~= a@);
    r
}

impl AstBuilder {
    /// Handles an opening tag.
    pub fn open(&mut self, tag: MdTag, start: usize, end: usize)
        ensures
            final(self)@ == open_tag(old(self)@, tag@, start, end),
    {
        let ghost t = tag;
        match tag {
            MdTag::Paragraph => self.push_top(Frame::new("paragraph", start, end)),
            MdTag::Heading { level, id, classes, attrs } => {
                self.push_top(heading_frame_exec(level, id, classes, attrs, start, end))
            },
            MdTag::BlockQuote(kind) => {
                let f = Frame::new("blockquote", start, end);
                let f = match kind {
                    Some(k) => f.with("kind", Json::Str(own(blockquote_kind(k)))),
                    None => f,
                };
                self.push_top(f);
            },
            MdTag::CodeBlock(Some(info)) => {
                let (name, attrs) = parse_fence_info(info.as_str());
                let f = Frame::new("fenced", start, end).with("name", Json::Str(name)).with(
                    "attrs",
                    Json::Object(attrs),
                );
                self.push_top(f);
            },
            MdTag::CodeBlock(None) => {
                let empty: Vec<(String, Json)> = Vec::new();
                assert(view_members(empty@) =~= Seq::<(Seq<char>, JsonV)>::empty());
                let f = Frame::new("fenced", start, end).with("name", Json::Str(String::new())).with(
                    "attrs",
                    Json::Object(empty),
                );
                self.push_top(f);
            },
            MdTag::HtmlBlock => self.push_top(Frame::new("html_block", start, end)),
            MdTag::List(first) => {
                let f = Frame::new("list", start, end);
                let f = match first {
                    Some(n) => f.with("ordered", Json::Bool(true)).with(
                        "start",
                        Json::Number(decimal_string(n)),
                    ),
                    None => f.with("ordered", Json::Bool(false)),
                };
                self.push_top(f);
            },
            MdTag::Item => self.push_top(Frame::new("list_item", start, end)),
            MdTag::FootnoteDefinition(label) => {
                self.push_top(Frame::new("footnote_def", start, end).with("label", Json::Str(label)))
            },
            MdTag::Table(aligns) => {
                let f = Frame::new("table", start, end).with(
                    "align",
                    Json::Array(aligns_node(aligns)),
                );
                self.table_headers = Vec::new();
                self.table_rows = Vec::new();
                assert(self@.headers =~= Seq::empty());
                assert(self@.rows =~= Seq::empty());
                self.push_top(f);
            },
            MdTag::TableHead => {
                self.in_table_head = true;
            },
            MdTag::TableRow => {
                self.current_row = Vec::new();
                assert(self@.row =~= Seq::empty());
            },
            MdTag::TableCell => self.push_top(Frame::new("_cell", start, end)),
            MdTag::DefinitionList => self.push_top(Frame::new("definition_list", start, end)),
            MdTag::DefinitionListTitle => self.push_top(Frame::new("_def_title", start, end)),
            MdTag::DefinitionListDefinition => self.push_top(Frame::new("_def_body", start, end)),
            MdTag::Emphasis => self.push_top(Frame::new("em", start, end)),
            MdTag::Strong => self.push_top(Frame::new("strong", start, end)),
            MdTag::Strikethrough => self.push_top(Frame::new("del", start, end)),
            MdTag::Superscript => self.push_top(Frame::new("sup", start, end)),
            MdTag::Subscript => self.push_top(Frame::new("sub", start, end)),
            MdTag::Link { dest_url, title } => {
                let f = Frame::new("link", start, end).with("href", Json::Str(dest_url)).with(
                    "title",
                    Json::Str(title),
                );
                self.push_top(f);
            },
            MdTag::Image { dest_url, title } => {
                let f = Frame::new("image", start, end).with("src", Json::Str(dest_url)).with(
                    "title",
                    Json::Str(title),
                );
                self.push_top(f);
            },
            MdTag::MetadataBlock => {},
        }
    }
}

/// The node of a closed frame, with its inline children bound to `key`.
fn finish(f: Frame, key: &str) -> (r: Json)
    ensures
        r@ == finished(f@, key@),
{
    let mut node = f.node;
    obj_insert(&mut node, own(key), Json::Array(f.inline));
    Json::Object(node)
}

impl AstBuilder {
    /// Handles a closing tag.
    pub fn close(&mut self, end: MdTagEnd)
        ensures
            final(self)@ == close_tag(old(self)@, end),
    {
        match end {
            MdTagEnd::TableHead => {
                self.in_table_head = false;
                return;
            },
            MdTagEnd::TableRow => {
                if self.current_row.len() > 0 {
                    let mut row: Vec<Json> = Vec::new();
                    std::mem::swap(&mut row, &mut self.current_row);
                    self.table_rows.push(Json::Array(row));
                    assert(self@.row =~= Seq::empty());
                }
                return;
            },
            MdTagEnd::MetadataBlock => {
                return;
            },
            _ => {},
        }
        if self.stack.len() == 0 {
            return;
        }
        let ghost b0 = self@;
        let mut f = self.pop_top();
        match end {
            MdTagEnd::Emphasis | MdTagEnd::Strong | MdTagEnd::Strikethrough
            | MdTagEnd::Superscript | MdTagEnd::Subscript | MdTagEnd::Link | MdTagEnd::Image
            | MdTagEnd::DefinitionListTitle | MdTagEnd::DefinitionListDefinition => {
                let node = finish(f, "children");
                self.push_inline(node);
            },
            MdTagEnd::Paragraph | MdTagEnd::Heading(_) | MdTagEnd::BlockQuote | MdTagEnd::Item
            | MdTagEnd::FootnoteDefinition => {
                let node = finish(f, "children");
                self.flush_block(node);
            },
            MdTagEnd::CodeBlock => {
                let n = trim_end_len(&f.text, f.text.len());
                let raw = crate::text::string_of_range(&f.text, 0, n);
                assert(f.text@.subrange(0, f.text@.len() as int) =~= f.text@);
                let mut node = f.node;
                obj_insert(&mut node, own("raw"), Json::Str(raw));
                self.flush_block(Json::Object(node));
            },
            MdTagEnd::HtmlBlock => {
                let html = string_from_chars(&f.text);
                let mut node = f.node;
                obj_insert(&mut node, own("html"), Json::Str(html));
                self.flush_block(Json::Object(node));
            },
            MdTagEnd::List | MdTagEnd::DefinitionList => {
                let node = finish(f, "items");
                self.flush_block(node);
            },
            MdTagEnd::TableCell => {
                let cell = finish(f, "children");
                if self.in_table_head {
                    self.table_headers.push(cell);
                } else {
                    self.current_row.push(cell);
                }
            },
            MdTagEnd::Table => {
                let mut headers: Vec<Json> = Vec::new();
                std::mem::swap(&mut headers, &mut self.table_headers);
                let mut rows: Vec<Json> = Vec::new();
                std::mem::swap(&mut rows, &mut self.table_rows);
                assert(self@.headers =~= Seq::empty());
                assert(self@.rows =~= Seq::empty());
                let mut node = f.node;
                obj_insert(&mut node, own("headers"), Json::Array(headers));
                obj_insert(&mut node, own("rows"), Json::Array(rows));
                self.flush_block(Json::Object(node));
            },
            _ => {},
        }
    }
}

impl AstBuilder {
    /// Handles a CommonMark event with byte range `start..end`.
    pub fn handle_cmark(&mut self, event: MdEvent, start: usize, end: usize)
        ensures
            final(self)@ == cmark_step(old(self)@, event@, start, end),
    {
        match event {
            MdEvent::Start(tag) => self.open(tag, start, end),
            MdEvent::End(t) => self.close(t),
            MdEvent::Rule => self.flush_block(leaf_node("hr", start, end, Vec::new())),
            MdEvent::TaskListMarker(c) => {
                self.push_inline(leaf_node("task_marker", start, end, member("checked", Json::Bool(c))))
            },
            MdEvent::Text(t) => {
                self.push_inline(leaf_node("text", start, end, member("text", Json::Str(t))))
            },
            MdEvent::Code(t) => {
                self.push_inline(leaf_node("code_span", start, end, member("text", Json::Str(t))))
            },
            MdEvent::InlineMath(t) => {
                self.push_inline(leaf_node("math_inline", start, end, member("src", Json::Str(t))))
            },
            MdEvent::DisplayMath(t) => {
                self.push_block(leaf_node("math_block", start, end, member("src", Json::Str(t))))
            },
            MdEvent::Html(t) | MdEvent::InlineHtml(t) => {
                if self.stack.len() > 0 && self.stack[self.stack.len() - 1].raw {
                    self.append_raw(t.as_str());
                } else {
                    let node = leaf_node("raw_html", start, end, member("html", Json::Str(t)));
                    if self.stack.len() == 0 {
                        self.push_block(node);
                    } else {
                        self.push_inline(node);
                    }
                }
            },
            MdEvent::FootnoteReference(l) => {
                self.push_inline(leaf_node("footnote_ref", start, end, member("label", Json::Str(l))))
            },
            MdEvent::SoftBreak => self.push_inline(leaf_node("soft_break", start, end, Vec::new())),
            MdEvent::HardBreak => self.push_inline(leaf_node("hard_break", start, end, Vec::new())),
        }
    }

    /// Handles one enriched event.
    pub fn handle(&mut self, rich: RichEvent)
        ensures
            final(self)@ == step(old(self)@, rich@),
    {
        let ghost r0 = rich;
        match rich {
            RichEvent::Cmark(event, start, end) => {
                let ghost ev = event;
                assert(r0 == RichEvent::Cmark(ev, start, end));
                self.handle_cmark(event, start, end);
                assert(step(old(self)@, RichEvent::Cmark(ev, start, end)@) == cmark_step(
                    old(self)@,
                    ev@,
                    start,
                    end,
                ));
            },
            RichEvent::Widget { name, text, attrs, start, end } => {
                let ghost (n, t, a) = (name@, text@, view_members(attrs@));
                let mut extra = member("name", Json::Str(name));
                push_member(&mut extra, "text", Json::Str(text));
                push_member(&mut extra, "attrs", Json::Object(attrs));
                assert(view_members(extra@) =~= seq![
                    ("name"@, JsonV::Str(n)),
                    ("text"@, JsonV::Str(t)),
                    ("attrs"@, JsonV::Object(a)),
                ]);
                self.push_inline(leaf_node("widget", start, end, extra));
                assert(self@ == step(old(self)@, r0@));
            },
            RichEvent::LinkImageAttrs(attrs) => {
                if self.stack.len() > 0 {
                    let ghost b0 = self@;
                    let f = self.pop_top();
                    let mut f = f;
                    let mut merged: Vec<(String, Json)> = match members_lookup(&f.node, "attrs") {
                        Some(Json::Object(m)) => clone_members(m),
                        _ => Vec::new(),
                    };
                    proof {
                        assert(view_members(Seq::<(String, Json)>::empty()) =~= Seq::empty());
                    }
                    let ghost base = view_members(merged@);
                    let mut i: usize = 0;
                    let attrs = attrs;
                    while i < attrs.len()
                        invariant
                            i <= attrs.len(),
                            view_members(merged@) == insert_all(
                                base,
                                view_members(attrs@.subrange(0, i as int)),
                            ),
                        decreases attrs.len() - i,
                    {
                        obj_insert(&mut merged, attrs[i].0.clone(), clone_json(&attrs[i].1));
                        proof {
                            let pre = attrs@.subrange(0, i as int);
                            let nxt = attrs@.subrange(0, i + 1);
                            assert(nxt =~= pre.push(attrs@[i as int]));
                            lemma_view_members(nxt);
                            assert(view_members(nxt).drop_last() =~= view_members(pre));
                        }
                        i = i + 1;
                    }
                    assert(attrs@.subrange(0, attrs@.len() as int) =~= attrs@);
                    obj_insert(&mut f.node, own("attrs"), Json::Object(merged));
                    self.push_top(f);
                    assert(self@.stack =~= b0.stack.update(b0.stack.len() - 1, self@.stack.last()));
                    assert(self@ == step(old(self)@, r0@));
                }
            },
        }
    }
}

/// The elements of `v` in reverse order.
pub fn into_reversed<T>(v: Vec<T>) -> (r: Vec<T>)
    ensures
        r@.len() == v@.len(),
        forall|k: int| 0 <= k < v@.len() ==> r@[k] == v@[v@.len() - 1 - k],
{
    let ghost v0 = v@;
    let mut v = v;
    let mut r: Vec<T> = Vec::new();
    while v.len() > 0
        invariant
            v@ == v0.subrange(0, v@.len() as int),
            r@.len() + v@.len() == v0.len(),
            forall|k: int| 0 <= k < r@.len() ==> r@[k] == v0[v0.len() - 1 - k],
        decreases v.len(),
    {
        let x = v.pop().unwrap();
        r.push(x);
        assert(v@ =~= v0.subrange(0, v@.len() as int));
    }
    r
}

/// The directive table as values.
pub open spec fn directives_view(d: Seq<(usize, Json)>) -> Seq<(usize, JsonV)> {
    d.map_values(|x: (usize, Json)| (x.0, x.1@))
}

/// The value of the digit string `t[..i]`, accumulated left to right.
pub proof fn lemma_digits_prefix(t: Seq<char>, i: int)
    requires
        0 <= i < t.len(),
    ensures
        digits_value(t.subrange(0, i + 1)) == digits_value(t.subrange(0, i)) * 10 + ((t[i] as u32
            - '0' as u32) as nat),
{
    assert(t.subrange(0, i + 1).drop_last() =~= t.subrange(0, i));
}

/// A digit string's value is at least that of its prefixes.
pub proof fn lemma_digits_monotone(t: Seq<char>, i: int)
    requires
        0 <= i <= t.len(),
        forall|j: int| 0 <= j < t.len() ==> '0' <= #[trigger] t[j] <= '9',
    ensures
        digits_value(t.subrange(0, i)) <= digits_value(t),
    decreases t.len() - i,
{
    if i < t.len() {
        lemma_digits_prefix(t, i);
        lemma_digits_monotone(t, i + 1);
    } else {
        assert(t.subrange(0, i) =~= t);
    }
}

/// The value of a JSON number text that is an unsigned 64-bit integer.
pub fn number_text_as_u64(t: &str) -> (r: Option<u64>)
    ensures
        r == number_as_u64(t@),
{
    let c = str_chars(t);
    if c.len() == 0 {
        return None;
    }
    let mut i: usize = 0;
    while i < c.len()
        invariant
            i <= c.len(),
            c@ == t@,
            forall|j: int| 0 <= j < i ==> '0' <= #[trigger] c@[j] <= '9',
        decreases c.len() - i,
    {
        if !('0' <= c[i] && c[i] <= '9') {
            return None;
        }
        i = i + 1;
    }
    let mut v: u64 = 0;
    i = 0;
    while i < c.len()
        invariant
            i <= c.len(),
            c@ == t@,
            forall|j: int| 0 <= j < c@.len() ==> '0' <= #[trigger] c@[j] <= '9',
            v as nat == digits_value(c@.subrange(0, i as int)),
        decreases c.len() - i,
    {
        let d = (c[i] as u32 - '0' as u32) as u64;
        proof {
            lemma_digits_prefix(c@, i as int);
        }
        if v > (u64::MAX - d) / 10 {
            proof {
                lemma_digits_monotone(c@, i + 1);
                assert(v * 10 + d > u64::MAX) by (nonlinear_arith)
                    requires
                        v > (u64::MAX - d) / 10,
                        d <= 9,
                ;
            }
            return None;
        }
        assert(v * 10 + d <= u64::MAX) by (nonlinear_arith)
            requires
                v <= (u64::MAX - d) / 10,
                d <= 9,
        ;
        v = v * 10 + d;
        i = i + 1;
    }
    assert(c@.subrange(0, c@.len() as int) =~= c@);
    Some(v)
}

/// The start of a block's byte range, if it has one.
fn block_start_exec(b: &Json) -> (r: Option<u64>)
    ensures
        r == block_start(b@),
{
    match json_get(b, "range") {
        Some(Json::Array(a)) => {
            if a.len() > 0 {
                proof {
                    lemma_view_items(a@);
                }
                match &a[0] {
                    Json::Number(t) => number_text_as_u64(t.as_str()),
                    _ => None,
                }
            } else {
                proof {
                    lemma_view_items(a@);
                }
                None
            }
        },
        _ => None,
    }
}

/// Inserts each directive node before the first block that starts at or
/// after the directive's start byte (at the end when there is none).
pub fn merge_directives(blocks: Vec<Json>, directives: Vec<(usize, Json)>) -> (r: Vec<Json>)
    ensures
        view_items(r@) == merge_directives_spec(view_items(blocks@), directives_view(directives@)),
{
    let ghost b0 = view_items(blocks@);
    let ghost dv = directives_view(directives@);
    let n = directives.len();
    let mut rev = into_reversed(directives);
    let mut blocks = blocks;
    let mut j: usize = 0;
    assert(dv.subrange(0, 0) =~= Seq::<(usize, JsonV)>::empty());
    while j < n
        invariant
            j <= n,
            dv.len() == n,
            rev@.len() == n - j,
            forall|k: int| 0 <= k < rev@.len() ==> (#[trigger] rev@[k]).0 == dv[n - 1 - k].0
                && rev@[k].1@ == dv[n - 1 - k].1,
            view_items(blocks@) == merge_directives_spec(b0, dv.subrange(0, j as int)),
        decreases n - j,
    {
        let (sb, node) = rev.pop().unwrap();
        let ghost m = view_items(blocks@);
        let mut k: usize = 0;
        proof {
            lemma_view_items(blocks@);
        }
        while k < blocks.len()
            invariant
                k <= blocks.len(),
                m == view_items(blocks@),
                m.len() == blocks@.len(),
                insert_index(m, sb, 0) == insert_index(m, sb, k as int),
            ensures
                k <= blocks.len(),
                m == view_items(blocks@),
                m.len() == blocks@.len(),
                insert_index(m, sb, 0) == insert_index(m, sb, k as int),
                k < blocks.len() ==> goes_before(m[k as int], sb),
            decreases blocks.len() - k,
        {
            let st = block_start_exec(&blocks[k]);
            proof {
                lemma_view_items(blocks@);
            }
            let before = match st {
                Some(s) => (s as usize) >= sb,
                None => false,
            };
            assert(before == goes_before(m[k as int], sb));
            if before {
                break;
            }
            k = k + 1;
        }
        let ghost idx = insert_index(m, sb, 0);
        assert(idx == k as int) by {
            if k < blocks.len() {
                assert(insert_index(m, sb, k as int) == k as int);
            }
        }
        let ghost nv = node@;
        blocks.insert(k, node);
        proof {
            lemma_view_items(blocks@);
            lemma_view_items(blocks@);
            assert(view_items(blocks@) =~= m.insert(k as int, nv));
            let d1 = dv.subrange(0, j + 1);
            assert(d1.drop_last() =~= dv.subrange(0, j as int));
            assert(d1.last() == (sb, nv));
        }
        j = j + 1;
    }
    assert(dv.subrange(0, n as int) =~= dv);
    blocks
}

/// Converts the enriched event stream and the directive table into the AST
/// (the top-level block nodes).
pub fn build_ast(rich_events: Vec<RichEvent>, directives: Vec<(usize, Json)>) -> (r: Vec<Json>)
    ensures
        view_items(r@) == build_ast_spec(rich_view(rich_events@), directives_view(directives@)),
{
    let ghost evs = rich_view(rich_events@);
    let n = rich_events.len();
    let mut rev = into_reversed(rich_events);
    let mut b = AstBuilder::new();
    let mut i: usize = 0;
    while i < n
        invariant
            i <= n,
            evs.len() == n,
            rev@.len() == n - i,
            forall|k: int| 0 <= k < rev@.len() ==> #[trigger] rev@[k]@ == evs[n - 1 - k],
            run_from(evs, 0, builder_init()) == run_from(evs, i as int, b@),
        decreases n - i,
    {
        let e = rev.pop().unwrap();
        assert(e@ == evs[i as int]);
        b.handle(e);
        i = i + 1;
    }
    merge_directives(b.blocks, directives)
}

/// Converts a heading level to an integer (1–6).
pub fn heading_level(level: Level) -> (r: u8)
    ensures
        r as nat == heading_level_spec(level),
{
    match level {
        Level::H1 => 1,
        Level::H2 => 2,
        Level::H3 => 3,
        Level::H4 => 4,
        Level::H5 => 5,
        Level::H6 => 6,
    }
}

/// Maps a GFM alert kind to its string tag.
pub fn blockquote_kind(k: QuoteKind) -> (r: &'static str)
    ensures
        r@ == quote_kind_name(k),
{
    match k {
        QuoteKind::Note => "note",
        QuoteKind::Tip => "tip",
        QuoteKind::Important => "important",
        QuoteKind::Warning => "warning",
        QuoteKind::Caution => "caution",
    }
}

/// Maps a column alignment to its CSS-style name.
pub fn col_align(a: Align) -> (r: &'static str)
    ensures
        r@ == align_name(a),
{
    match a {
        Align::Left => "left",
        Align::Right => "right",
        Align::Center => "center",
        Align::NoAlign => "none",
    }
}

} // verus!
