//! A flat token list (`{"type": ..., ...}`) from a stream of plugin blocks
//! and CommonMark events: headings, paragraphs, code blocks, list items,
//! rules, tables and plugin blocks, one token each. The Typst target reads
//! such a list.
use vstd::prelude::*;
use crate::ast::heading_level;
use crate::ast_spec::{digits_value, heading_level_spec, number_as_u64};
use crate::cmark::{opt_view, Level, MdEvent, MdEventV, MdTag, MdTagEnd, MdTagV};
use crate::json_value::{jstr, lemma_key_index, members_get, push_item, push_member, view_items, view_members, Json, JsonV};
use crate::typst::{member_of, token_type, typst_token_ok, u64_or};
use crate::text::{decimal, decimal_string, digit_char, own, push_char, str_chars, string_of_range, trim, trim_end,
    trim_end_len, trim_range};

verus! {

/// A plugin block: the name of its engine and its raw body.
pub struct PluginBlock {
    pub name: String,
    pub body: String,
}

/// An event of the stream that [`compile_to_ast`] reads.
pub enum MarkplusEvent {
    Plugin(PluginBlock),
    Markdown(MdEvent),
}

/// The value of a [`MarkplusEvent`]: a plugin's name and body, or a
/// CommonMark event.
pub enum MarkplusV {
    Plugin(Seq<char>, Seq<char>),
    Markdown(MdEventV),
}

impl View for MarkplusEvent {
    type V = MarkplusV;

    open spec fn view(&self) -> MarkplusV {
        match self {
            MarkplusEvent::Plugin(p) => MarkplusV::Plugin(p.name@, p.body@),
            MarkplusEvent::Markdown(e) => MarkplusV::Markdown(e@),
        }
    }
}

/// The compiler's state between two events.
pub struct FlatV {
    /// The tokens so far.
    pub tokens: Seq<JsonV>,
    /// The text collected since the last tag.
    pub buf: Seq<char>,
    /// The info string of the code block that the last tag opened
    /// (`Some(None)` for an indented block), when it opened one.
    pub code: Option<Option<Seq<char>>>,
    /// Whether the cells read now are header cells.
    pub in_head: bool,
    /// The header cells of the open table.
    pub headers: Seq<Seq<char>>,
    /// The body rows of the open table.
    pub rows: Seq<Seq<Seq<char>>>,
    /// The cells of the open body row.
    pub row: Seq<Seq<char>>,
}

/// The state before the first event.
pub open spec fn flat_init() -> FlatV {
    FlatV {
        tokens: Seq::empty(),
        buf: Seq::empty(),
        code: None,
        in_head: false,
        headers: Seq::empty(),
        rows: Seq::empty(),
        row: Seq::empty(),
    }
}

/// `{"type": ty, "text": text}`.
pub open spec fn text_token(ty: Seq<char>, text: Seq<char>) -> JsonV {
    JsonV::Object(seq![("type"@, JsonV::Str(ty)), ("text"@, JsonV::Str(text))])
}

/// `{"type": "heading", "level": n, "text": text}`.
pub open spec fn heading_token(l: Level, text: Seq<char>) -> JsonV {
    JsonV::Object(
        seq![
            ("type"@, JsonV::Str("heading"@)),
            ("level"@, JsonV::Number(decimal(heading_level_spec(l)))),
            ("text"@, JsonV::Str(text)),
        ],
    )
}

/// `{"type": "code_block", "language": lang, "code": code}`.
pub open spec fn code_token(lang: Seq<char>, code: Seq<char>) -> JsonV {
    JsonV::Object(
        seq![
            ("type"@, JsonV::Str("code_block"@)),
            ("language"@, JsonV::Str(lang)),
            ("code"@, JsonV::Str(code)),
        ],
    )
}

/// `{"type": "plugin", "engine": name, "raw": body}`.
pub open spec fn plugin_token(name: Seq<char>, body: Seq<char>) -> JsonV {
    JsonV::Object(
        seq![
            ("type"@, JsonV::Str("plugin"@)),
            ("engine"@, JsonV::Str(name)),
            ("raw"@, JsonV::Str(body)),
        ],
    )
}

/// `{"type": "hr"}`.
pub open spec fn hr_token() -> JsonV {
    JsonV::Object(seq![("type"@, JsonV::Str("hr"@))])
}

/// An array of strings.
pub open spec fn str_array(s: Seq<Seq<char>>) -> JsonV {
    JsonV::Array(s.map_values(|x: Seq<char>| JsonV::Str(x)))
}

/// `{"type": "table", "headers": [...], "rows": [[...], ...]}`.
pub open spec fn table_token(headers: Seq<Seq<char>>, rows: Seq<Seq<Seq<char>>>) -> JsonV {
    JsonV::Object(
        seq![
            ("type"@, JsonV::Str("table"@)),
            ("headers"@, str_array(headers)),
            ("rows"@, JsonV::Array(rows.map_values(|r: Seq<Seq<char>>| str_array(r)))),
        ],
    )
}

/// The state after a tag opens: the tag is remembered (as far as a code
/// block's info goes), the text is cleared, a table head starts header
/// cells and a table row starts an empty row.
pub open spec fn start_step(s: FlatV, tag: MdTagV) -> FlatV {
    FlatV {
        code: match tag {
            MdTagV::CodeBlock(k) => Some(k),
            _ => None,
        },
        buf: Seq::empty(),
        in_head: if tag is TableHead {
            true
        } else {
            s.in_head
        },
        row: if tag is TableRow {
            Seq::empty()
        } else {
            s.row
        },
        ..s
    }
}

/// The state after a tag closes: headings, paragraphs, code blocks, list
/// items and tables become tokens, cells join the head or the open row,
/// rows join the table; then the tag is forgotten and the text cleared.
pub open spec fn end_step(s: FlatV, t: MdTagEnd) -> FlatV {
    let s1 = match t {
        MdTagEnd::Heading(l) => FlatV { tokens: s.tokens.push(heading_token(l, trim(s.buf))), ..s },
        MdTagEnd::Paragraph => FlatV { tokens: s.tokens.push(text_token("paragraph"@, trim(s.buf))), ..s },
        MdTagEnd::CodeBlock => match s.code {
            Some(info) => FlatV {
                tokens: s.tokens.push(
                    code_token(
                        match info {
                            Some(l) => l,
                            None => Seq::empty(),
                        },
                        trim_end(s.buf),
                    ),
                ),
                ..s
            },
            None => s,
        },
        MdTagEnd::TableCell => if s.in_head {
            FlatV { headers: s.headers.push(trim(s.buf)), ..s }
        } else {
            FlatV { row: s.row.push(trim(s.buf)), ..s }
        },
        MdTagEnd::TableRow => if s.in_head {
            s
        } else {
            FlatV { rows: s.rows.push(s.row), ..s }
        },
        MdTagEnd::TableHead => FlatV { in_head: false, ..s },
        MdTagEnd::Table => FlatV {
            tokens: s.tokens.push(table_token(s.headers, s.rows)),
            headers: Seq::empty(),
            rows: Seq::empty(),
            ..s
        },
        MdTagEnd::Item => FlatV { tokens: s.tokens.push(text_token("list_item"@, trim(s.buf))), ..s },
        _ => s,
    };
    FlatV { code: None, buf: Seq::empty(), ..s1 }
}

/// The state after one event.
pub open spec fn flat_step(s: FlatV, e: MarkplusV) -> FlatV {
    match e {
        MarkplusV::Plugin(name, body) => FlatV { tokens: s.tokens.push(plugin_token(name, body)), ..s },
        MarkplusV::Markdown(ev) => match ev {
            MdEventV::Start(tag) => start_step(s, tag),
            MdEventV::End(t) => end_step(s, t),
            MdEventV::Text(t) => FlatV { buf: s.buf + t, ..s },
            MdEventV::Code(t) => FlatV { buf: s.buf + t, ..s },
            MdEventV::Html(t) => FlatV { buf: s.buf + t, ..s },
            MdEventV::InlineHtml(t) => FlatV { buf: s.buf + t, ..s },
            MdEventV::SoftBreak => FlatV { buf: s.buf.push('\n'), ..s },
            MdEventV::HardBreak => FlatV { buf: s.buf.push('\n'), ..s },
            MdEventV::Rule => FlatV { tokens: s.tokens.push(hr_token()), ..s },
            _ => s,
        },
    }
}

/// The state after the events `es`.
pub open spec fn flat_run(es: Seq<MarkplusV>) -> FlatV
    decreases es.len(),
{
    if es.len() == 0 {
        flat_init()
    } else {
        flat_step(flat_run(es.drop_last()), es.last())
    }
}

/// The characters of each string.
pub open spec fn strs(v: Seq<String>) -> Seq<Seq<char>> {
    v.map_values(|x: String| x@)
}

struct Flat {
    tokens: Vec<Json>,
    buf: String,
    code: Option<Option<String>>,
    in_head: bool,
    headers: Vec<String>,
    rows: Vec<Vec<String>>,
    row: Vec<String>,
}

impl View for Flat {
    type V = FlatV;

    closed spec fn view(&self) -> FlatV {
        FlatV {
            tokens: view_items(self.tokens@),
            buf: self.buf@,
            code: match self.code {
                Some(o) => Some(opt_view(o)),
                None => None,
            },
            in_head: self.in_head,
            headers: strs(self.headers@),
            rows: self.rows@.map_values(|r: Vec<String>| strs(r@)),
            row: strs(self.row@),
        }
    }
}

/// `s` without leading and trailing whitespace.
fn trimmed(s: &String) -> (r: String)
    ensures
        r@ == trim(s@),
{
    let c = str_chars(s.as_str());
    let (a, b) = trim_range(c.as_slice(), 0, c.len());
    assert(c@.subrange(0, c@.len() as int) =~= c@);
    string_of_range(c.as_slice(), a, b)
}

/// `s` without trailing whitespace.
fn trimmed_end(s: &String) -> (r: String)
    ensures
        r@ == trim_end(s@),
{
    let c = str_chars(s.as_str());
    let n = trim_end_len(c.as_slice(), c.len());
    assert(c@.subrange(0, c@.len() as int) =~= c@);
    string_of_range(c.as_slice(), 0, n)
}

/// A copy of the strings `v`.
fn clone_strings(v: &Vec<String>) -> (r: Vec<String>)
    ensures
        strs(r@) == strs(v@),
{
    let mut r: Vec<String> = Vec::new();
    let mut i: usize = 0;
    while i < v.len()
        invariant
            i <= v@.len(),
            r@.len() == i,
            forall|k: int| 0 <= k < i ==> #[trigger] r@[k]@ == v@[k]@,
        decreases v.len() - i,
    {
        r.push(own(v[i].as_str()));
        i = i + 1;
    }
    assert(strs(r@) =~= strs(v@));
    r
}

/// The JSON array of the strings `v`.
fn strings_json(v: &Vec<String>) -> (r: Json)
    ensures
        r@ == str_array(strs(v@)),
{
    let mut items: Vec<Json> = Vec::new();
    let mut i: usize = 0;
    while i < v.len()
        invariant
            i <= v@.len(),
            view_items(items@).len() == i,
            forall|k: int| 0 <= k < i ==> #[trigger] view_items(items@)[k] == JsonV::Str(v@[k]@),
        decreases v.len() - i,
    {
        let ghost before = view_items(items@);
        push_item(&mut items, jstr(v[i].as_str()));
        assert(view_items(items@) == before.push(JsonV::Str(v@[i as int]@)));
        i = i + 1;
    }
    assert(view_items(items@) =~= strs(v@).map_values(|x: Seq<char>| JsonV::Str(x)));
    Json::Array(items)
}

/// The JSON array of the rows `v`, each an array of strings.
fn rows_json(v: &Vec<Vec<String>>) -> (r: Json)
    ensures
        r@ == JsonV::Array(
            v@.map_values(|r: Vec<String>| strs(r@)).map_values(|r: Seq<Seq<char>>| str_array(r)),
        ),
{
    let ghost target = v@.map_values(|r: Vec<String>| strs(r@)).map_values(|r: Seq<Seq<char>>| str_array(r));
    let mut items: Vec<Json> = Vec::new();
    let mut i: usize = 0;
    while i < v.len()
        invariant
            i <= v@.len(),
            target == v@.map_values(|r: Vec<String>| strs(r@)).map_values(|r: Seq<Seq<char>>| str_array(r)),
            view_items(items@).len() == i,
            forall|k: int| 0 <= k < i ==> #[trigger] view_items(items@)[k] == target[k],
        decreases v.len() - i,
    {
        let ghost before = view_items(items@);
        let row = strings_json(&v[i]);
        push_item(&mut items, row);
        assert(view_items(items@) == before.push(target[i as int]));
        i = i + 1;
    }
    assert(view_items(items@) =~= target);
    Json::Array(items)
}

/// `{"type": ty, "text": text}`.
fn text_json(ty: &str, text: String) -> (r: Json)
    ensures
        r@ == text_token(ty@, text@),
{
    let mut m: Vec<(String, Json)> = Vec::new();
    assert(view_members(m@) =~= Seq::<(Seq<char>, JsonV)>::empty());
    push_member(&mut m, "type", jstr(ty));
    push_member(&mut m, "text", Json::Str(text));
    let r = Json::Object(m);
    assert(view_members(m@) =~= seq![("type"@, JsonV::Str(ty@)), ("text"@, JsonV::Str(text@))]);
    r
}

/// `{"type": ty, ...}` with the three members given.
fn object3(k1: &str, v1: Json, k2: &str, v2: Json, k3: &str, v3: Json) -> (r: Json)
    ensures
        r@ == JsonV::Object(seq![(k1@, v1@), (k2@, v2@), (k3@, v3@)]),
{
    let mut m: Vec<(String, Json)> = Vec::new();
    assert(view_members(m@) =~= Seq::<(Seq<char>, JsonV)>::empty());
    let ghost (a, b, c) = (v1@, v2@, v3@);
    push_member(&mut m, k1, v1);
    push_member(&mut m, k2, v2);
    push_member(&mut m, k3, v3);
    assert(view_members(m@) =~= seq![(k1@, a), (k2@, b), (k3@, c)]);
    Json::Object(m)
}

fn heading_json(l: Level, text: String) -> (r: Json)
    ensures
        r@ == heading_token(l, text@),
{
    let n = heading_level(l);
    object3("type", jstr("heading"), "level", Json::Number(decimal_string(n as u64)), "text", Json::Str(text))
}

fn code_json(lang: String, code: String) -> (r: Json)
    ensures
        r@ == code_token(lang@, code@),
{
    object3("type", jstr("code_block"), "language", Json::Str(lang), "code", Json::Str(code))
}

fn plugin_json(p: &PluginBlock) -> (r: Json)
    ensures
        r@ == plugin_token(p.name@, p.body@),
{
    object3("type", jstr("plugin"), "engine", jstr(p.name.as_str()), "raw", jstr(p.body.as_str()))
}

fn hr_json() -> (r: Json)
    ensures
        r@ == hr_token(),
{
    let mut m: Vec<(String, Json)> = Vec::new();
    assert(view_members(m@) =~= Seq::<(Seq<char>, JsonV)>::empty());
    push_member(&mut m, "type", jstr("hr"));
    assert(view_members(m@) =~= seq![("type"@, JsonV::Str("hr"@))]);
    Json::Object(m)
}

impl Flat {
    fn new() -> (r: Flat)
        ensures
            r@ == flat_init(),
    {
        let r = Flat {
            tokens: Vec::new(),
            buf: String::new(),
            code: None,
            in_head: false,
            headers: Vec::new(),
            rows: Vec::new(),
            row: Vec::new(),
        };
        assert(r@.tokens =~= Seq::<JsonV>::empty());
        assert(r@.headers =~= Seq::<Seq<char>>::empty());
        assert(r@.rows =~= Seq::<Seq<Seq<char>>>::empty());
        assert(r@.row =~= Seq::<Seq<char>>::empty());
        r
    }

    fn push_token(&mut self, t: Json)
        ensures
            final(self)@ == (FlatV { tokens: old(self)@.tokens.push(t@), ..old(self)@ }),
    {
        push_item(&mut self.tokens, t);
    }

    fn start(&mut self, tag: &MdTag)
        ensures
            final(self)@ == start_step(old(self)@, tag@),
    {
        self.code = match tag {
            MdTag::CodeBlock(k) => Some(
                match k {
                    Some(l) => Some(own(l.as_str())),
                    None => None,
                },
            ),
            _ => None,
        };
        self.buf = String::new();
        match tag {
            MdTag::TableHead => {
                self.in_head = true;
            },
            MdTag::TableRow => {
                self.row = Vec::new();
                assert(strs(self.row@) =~= Seq::<Seq<char>>::empty());
            },
            _ => {},
        }
    }

    fn end(&mut self, t: MdTagEnd)
        ensures
            final(self)@ == end_step(old(self)@, t),
    {
        match t {
            MdTagEnd::Heading(l) => {
                let text = trimmed(&self.buf);
                self.push_token(heading_json(l, text));
            },
            MdTagEnd::Paragraph => {
                let text = trimmed(&self.buf);
                self.push_token(text_json("paragraph", text));
            },
            MdTagEnd::CodeBlock => {
                match &self.code {
                    Some(info) => {
                        let lang = match info {
                            Some(l) => own(l.as_str()),
                            None => String::new(),
                        };
                        let code = trimmed_end(&self.buf);
                        self.push_token(code_json(lang, code));
                    },
                    None => {},
                }
            },
            MdTagEnd::TableCell => {
                let text = trimmed(&self.buf);
                let ghost tv = text@;
                if self.in_head {
                    let ghost h0 = self.headers@;
                    self.headers.push(text);
                    assert(strs(self.headers@) =~= strs(h0).push(tv));
                } else {
                    let ghost r0 = self.row@;
                    self.row.push(text);
                    assert(strs(self.row@) =~= strs(r0).push(tv));
                }
            },
            MdTagEnd::TableRow => {
                if !self.in_head {
                    let ghost rs0 = self.rows@;
                    let c = clone_strings(&self.row);
                    let ghost cv = c;
                    self.rows.push(c);
                    assert(self.rows@ == rs0.push(cv));
                    assert(self.rows@.map_values(|r: Vec<String>| strs(r@)) =~= rs0.map_values(
                        |r: Vec<String>| strs(r@),
                    ).push(strs(self.row@)));
                }
            },
            MdTagEnd::TableHead => {
                self.in_head = false;
            },
            MdTagEnd::Table => {
                let h = strings_json(&self.headers);
                let r = rows_json(&self.rows);
                let tok = object3("type", jstr("table"), "headers", h, "rows", r);
                self.push_token(tok);
                self.headers = Vec::new();
                self.rows = Vec::new();
                assert(strs(self.headers@) =~= Seq::<Seq<char>>::empty());
                assert(self.rows@.map_values(|r: Vec<String>| strs(r@)) =~= Seq::<Seq<Seq<char>>>::empty());
            },
            MdTagEnd::Item => {
                let text = trimmed(&self.buf);
                self.push_token(text_json("list_item", text));
            },
            _ => {},
        }
        self.code = None;
        self.buf = String::new();
    }

    fn step(&mut self, e: &MarkplusEvent)
        ensures
            final(self)@ == flat_step(old(self)@, e@),
    {
        match e {
            MarkplusEvent::Plugin(p) => {
                self.push_token(plugin_json(p));
            },
            MarkplusEvent::Markdown(ev) => match ev {
                MdEvent::Start(tag) => self.start(tag),
                MdEvent::End(t) => self.end(*t),
                MdEvent::Text(t) => self.buf.append(t.as_str()),
                MdEvent::Code(t) => self.buf.append(t.as_str()),
                MdEvent::Html(t) => self.buf.append(t.as_str()),
                MdEvent::InlineHtml(t) => self.buf.append(t.as_str()),
                MdEvent::SoftBreak => push_char(&mut self.buf, '\n'),
                MdEvent::HardBreak => push_char(&mut self.buf, '\n'),
                MdEvent::Rule => self.push_token(hr_json()),
                _ => {},
            },
        }
    }
}

/// Compiles a stream of plugin blocks and CommonMark events to a flat token
/// list: a plugin block gives `{"type": "plugin", "engine", "raw"}`; a
/// heading, paragraph or list item gives its trimmed text (a heading with
/// its level); a code block its language and its text without trailing
/// whitespace; a rule `{"type": "hr"}`; a table its header cells and body
/// rows.
pub fn compile_to_ast(stream: &[MarkplusEvent]) -> (r: Vec<Json>)
    ensures
        view_items(r@) == flat_run(stream@.map_values(|e: MarkplusEvent| e@)).tokens,
{
    let ghost sv = stream@.map_values(|e: MarkplusEvent| e@);
    let mut st = Flat::new();
    let mut i: usize = 0;
    while i < stream.len()
        invariant
            i <= stream@.len(),
            sv == stream@.map_values(|e: MarkplusEvent| e@),
            st@ == flat_run(sv.take(i as int)),
        decreases stream.len() - i,
    {
        st.step(&stream[i]);
        assert(sv.take(i + 1).drop_last() =~= sv.take(i as int));
        i = i + 1;
    }
    assert(sv.take(sv.len() as int) =~= sv);
    st.tokens
}

/// `members_get` finds the member at `i` when no earlier member has its key.
proof fn lemma_member_at(m: Seq<(Seq<char>, JsonV)>, k: Seq<char>, i: int)
    requires
        0 <= i < m.len(),
        m[i].0 == k,
        forall|j: int| 0 <= j < i ==> m[j].0 != k,
    ensures
        members_get(m, k) == Some(m[i].1),
{
    lemma_key_index(m, k);
}

/// The `type` member of a token whose first member is `type`.
proof fn lemma_token_type(ty: Seq<char>, m: Seq<(Seq<char>, JsonV)>)
    requires
        m.len() > 0,
        m[0] == ("type"@, JsonV::Str(ty)),
    ensures
        token_type(JsonV::Object(m)) == ty,
{
    lemma_member_at(m, "type"@, 0);
}

proof fn lemma_heading_token_ok(l: Level, text: Seq<char>)
    ensures
        typst_token_ok(heading_token(l, text)),
{
    let t = heading_token(l, text);
    let m = match t {
        JsonV::Object(m) => m,
        _ => Seq::empty(),
    };
    reveal_strlit("heading");
    reveal_strlit("table");
    reveal_strlit("type");
    reveal_strlit("level");
    lemma_token_type("heading"@, m);
    assert("type"@[1] != "level"@[1]);
    lemma_member_at(m, "level"@, 1);
    let d = heading_level_spec(l);
    let c = digit_char(d);
    assert(decimal(d) == seq![c]);
    assert(seq![c].drop_last() =~= Seq::<char>::empty());
    assert(seq![c].last() == c);
    assert((c as u32 - '0' as u32) as nat == d) by {
        match l {
            Level::H1 => assert(c == '1'),
            Level::H2 => assert(c == '2'),
            Level::H3 => assert(c == '3'),
            Level::H4 => assert(c == '4'),
            Level::H5 => assert(c == '5'),
            Level::H6 => assert(c == '6'),
        }
    }
    assert(digits_value(Seq::<char>::empty()) == 0);
    assert(digits_value(seq![c]) == d);
    assert(number_as_u64(decimal(d)) == Some(d as u64));
    assert(token_type(t) == "heading"@);
    assert(member_of(t, "level"@) == JsonV::Number(decimal(d)));
    assert(u64_or(member_of(t, "level"@), 1) == d);
    assert("table"@.len() != "heading"@.len());
}

proof fn lemma_table_token_ok(headers: Seq<Seq<char>>, rows: Seq<Seq<Seq<char>>>)
    ensures
        typst_token_ok(table_token(headers, rows)),
{
    let t = table_token(headers, rows);
    let m = match t {
        JsonV::Object(m) => m,
        _ => Seq::empty(),
    };
    reveal_strlit("heading");
    reveal_strlit("table");
    reveal_strlit("type");
    reveal_strlit("headers");
    lemma_token_type("table"@, m);
    assert("type"@.len() != "headers"@.len());
    lemma_member_at(m, "headers"@, 1);
    assert(token_type(t) == "table"@);
    assert(member_of(t, "headers"@) is Array);
    assert("table"@.len() != "heading"@.len());
}

/// A token whose type is neither `table` nor `heading` needs nothing more.
proof fn lemma_plain_token_ok(ty: Seq<char>, m: Seq<(Seq<char>, JsonV)>)
    requires
        m.len() > 0,
        m[0] == ("type"@, JsonV::Str(ty)),
        ty.len() != 5,
        ty.len() != 7,
    ensures
        typst_token_ok(JsonV::Object(m)),
{
    reveal_strlit("heading");
    reveal_strlit("table");
    lemma_token_type(ty, m);
}

proof fn lemma_step_tokens_ok(s: FlatV, e: MarkplusV)
    requires
        forall|i: int| 0 <= i < s.tokens.len() ==> typst_token_ok(#[trigger] s.tokens[i]),
    ensures
        forall|i: int|
            0 <= i < flat_step(s, e).tokens.len() ==> typst_token_ok(#[trigger] flat_step(s, e).tokens[i]),
{
    let n = flat_step(s, e);
    reveal_strlit("paragraph");
    reveal_strlit("list_item");
    reveal_strlit("code_block");
    reveal_strlit("plugin");
    reveal_strlit("hr");
    if n.tokens.len() > s.tokens.len() {
        let t = n.tokens.last();
        assert(n.tokens == s.tokens.push(t));
        match e {
            MarkplusV::Plugin(name, body) => {
                lemma_plain_token_ok(
                    "plugin"@,
                    seq![("type"@, JsonV::Str("plugin"@)), ("engine"@, JsonV::Str(name)), ("raw"@, JsonV::Str(body))],
                );
            },
            MarkplusV::Markdown(ev) => match ev {
                MdEventV::End(tag) => {
                    let b = trim(s.buf);
                    match tag {
                        MdTagEnd::Heading(l) => lemma_heading_token_ok(l, b),
                        MdTagEnd::Paragraph => lemma_plain_token_ok(
                            "paragraph"@,
                            seq![("type"@, JsonV::Str("paragraph"@)), ("text"@, JsonV::Str(b))],
                        ),
                        MdTagEnd::Item => lemma_plain_token_ok(
                            "list_item"@,
                            seq![("type"@, JsonV::Str("list_item"@)), ("text"@, JsonV::Str(b))],
                        ),
                        MdTagEnd::Table => lemma_table_token_ok(s.headers, s.rows),
                        _ => {
                            let info = s.code->0;
                            let lang = match info {
                                Some(l) => l,
                                None => Seq::empty(),
                            };
                            lemma_plain_token_ok(
                                "code_block"@,
                                seq![
                                    ("type"@, JsonV::Str("code_block"@)),
                                    ("language"@, JsonV::Str(lang)),
                                    ("code"@, JsonV::Str(trim_end(s.buf))),
                                ],
                            );
                        },
                    }
                },
                _ => lemma_plain_token_ok("hr"@, seq![("type"@, JsonV::Str("hr"@))]),
            },
        }
        assert forall|i: int| 0 <= i < n.tokens.len() implies typst_token_ok(#[trigger] n.tokens[i]) by {
            if i < s.tokens.len() {
                assert(n.tokens[i] == s.tokens[i]);
            }
        }
    } else {
        assert(n.tokens == s.tokens);
    }
}

/// Every token that [`compile_to_ast`] produces is one that
/// [`compile_to_typst`](crate::typst::compile_to_typst) accepts: a table's
/// headers are an array and a heading's level is a small integer.
pub proof fn lemma_flat_tokens_compile(es: Seq<MarkplusV>)
    ensures
        forall|i: int| 0 <= i < flat_run(es).tokens.len() ==> typst_token_ok(#[trigger] flat_run(es).tokens[i]),
    decreases es.len(),
{
    if es.len() > 0 {
        lemma_flat_tokens_compile(es.drop_last());
        lemma_step_tokens_ok(flat_run(es.drop_last()), es.last());
    }
}

} // verus!
