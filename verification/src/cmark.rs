//! The CommonMark event stream, as plain values of this library.
//!
//! `pulldown_cmark` does the Markdown parsing; [`cmark_parse`] hands its
//! events over as [`CmarkEvent`]s, which hold exactly what the AST builder
//! reads.
use vstd::prelude::*;
use crate::config::ParserOptions;
use pulldown_cmark::{
    Alignment, BlockQuoteKind, CodeBlockKind, CowStr, Event, HeadingLevel, Options, Parser, Tag, TagEnd,
};

verus! {

/// A heading level (`#` … `######`).
#[derive(Clone, Copy, PartialEq, Eq, Structural, Debug)]
pub enum Level {
    H1,
    H2,
    H3,
    H4,
    H5,
    H6,
}

/// The kind of a GFM alert blockquote (`> [!NOTE]`).
#[derive(Clone, Copy, PartialEq, Eq, Structural, Debug)]
pub enum QuoteKind {
    Note,
    Tip,
    Important,
    Warning,
    Caution,
}

/// The alignment of a table column.
#[derive(Clone, Copy, PartialEq, Eq, Structural, Debug)]
pub enum Align {
    NoAlign,
    Left,
    Center,
    Right,
}

/// An opening tag.
pub enum MdTag {
    Paragraph,
    Heading {
        level: Level,
        id: Option<String>,
        classes: Vec<String>,
        attrs: Vec<(String, Option<String>)>,
    },
    BlockQuote(Option<QuoteKind>),
    /// A code block: `Some(info)` when fenced, `None` when indented.
    CodeBlock(Option<String>),
    HtmlBlock,
    /// A list; `Some(start)` when ordered.
    List(Option<u64>),
    Item,
    FootnoteDefinition(String),
    DefinitionList,
    DefinitionListTitle,
    DefinitionListDefinition,
    Table(Vec<Align>),
    TableHead,
    TableRow,
    TableCell,
    Emphasis,
    Strong,
    Strikethrough,
    Superscript,
    Subscript,
    Link { dest_url: String, title: String },
    Image { dest_url: String, title: String },
    MetadataBlock,
}

/// A closing tag.
#[derive(Clone, Copy, PartialEq, Eq, Structural, Debug)]
pub enum MdTagEnd {
    Paragraph,
    Heading(Level),
    BlockQuote,
    CodeBlock,
    HtmlBlock,
    List,
    Item,
    FootnoteDefinition,
    DefinitionList,
    DefinitionListTitle,
    DefinitionListDefinition,
    Table,
    TableHead,
    TableRow,
    TableCell,
    Emphasis,
    Strong,
    Strikethrough,
    Superscript,
    Subscript,
    Link,
    Image,
    MetadataBlock,
}

/// A CommonMark event.
pub enum MdEvent {
    Start(MdTag),
    End(MdTagEnd),
    Text(String),
    Code(String),
    InlineMath(String),
    DisplayMath(String),
    Html(String),
    InlineHtml(String),
    FootnoteReference(String),
    SoftBreak,
    HardBreak,
    Rule,
    TaskListMarker(bool),
}

/// The value of an [`MdTag`].
pub enum MdTagV {
    Paragraph,
    Heading {
        level: Level,
        id: Option<Seq<char>>,
        classes: Seq<Seq<char>>,
        attrs: Seq<(Seq<char>, Option<Seq<char>>)>,
    },
    BlockQuote(Option<QuoteKind>),
    CodeBlock(Option<Seq<char>>),
    HtmlBlock,
    List(Option<u64>),
    Item,
    FootnoteDefinition(Seq<char>),
    DefinitionList,
    DefinitionListTitle,
    DefinitionListDefinition,
    Table(Seq<Align>),
    TableHead,
    TableRow,
    TableCell,
    Emphasis,
    Strong,
    Strikethrough,
    Superscript,
    Subscript,
    Link { dest_url: Seq<char>, title: Seq<char> },
    Image { dest_url: Seq<char>, title: Seq<char> },
    MetadataBlock,
}

/// The value of an optional string.
pub open spec fn opt_view(o: Option<String>) -> Option<Seq<char>> {
    match o {
        Some(s) => Some(s@),
        None => None,
    }
}

impl View for MdTag {
    type V = MdTagV;

    open spec fn view(&self) -> MdTagV {
        match self {
            MdTag::Paragraph => MdTagV::Paragraph,
            MdTag::Heading { level, id, classes, attrs } => MdTagV::Heading {
                level: *level,
                id: opt_view(*id),
                classes: classes@.map_values(|c: String| c@),
                attrs: attrs@.map_values(|a: (String, Option<String>)| (a.0@, opt_view(a.1))),
            },
            MdTag::BlockQuote(k) => MdTagV::BlockQuote(*k),
            MdTag::CodeBlock(info) => MdTagV::CodeBlock(opt_view(*info)),
            MdTag::HtmlBlock => MdTagV::HtmlBlock,
            MdTag::List(n) => MdTagV::List(*n),
            MdTag::Item => MdTagV::Item,
            MdTag::FootnoteDefinition(l) => MdTagV::FootnoteDefinition(l@),
            MdTag::DefinitionList => MdTagV::DefinitionList,
            MdTag::DefinitionListTitle => MdTagV::DefinitionListTitle,
            MdTag::DefinitionListDefinition => MdTagV::DefinitionListDefinition,
            MdTag::Table(a) => MdTagV::Table(a@),
            MdTag::TableHead => MdTagV::TableHead,
            MdTag::TableRow => MdTagV::TableRow,
            MdTag::TableCell => MdTagV::TableCell,
            MdTag::Emphasis => MdTagV::Emphasis,
            MdTag::Strong => MdTagV::Strong,
            MdTag::Strikethrough => MdTagV::Strikethrough,
            MdTag::Superscript => MdTagV::Superscript,
            MdTag::Subscript => MdTagV::Subscript,
            MdTag::Link { dest_url, title } => MdTagV::Link { dest_url: dest_url@, title: title@ },
            MdTag::Image { dest_url, title } => MdTagV::Image { dest_url: dest_url@, title: title@ },
            MdTag::MetadataBlock => MdTagV::MetadataBlock,
        }
    }
}

/// The value of an [`MdEvent`].
pub enum MdEventV {
    Start(MdTagV),
    End(MdTagEnd),
    Text(Seq<char>),
    Code(Seq<char>),
    InlineMath(Seq<char>),
    DisplayMath(Seq<char>),
    Html(Seq<char>),
    InlineHtml(Seq<char>),
    FootnoteReference(Seq<char>),
    SoftBreak,
    HardBreak,
    Rule,
    TaskListMarker(bool),
}

impl View for MdEvent {
    type V = MdEventV;

    open spec fn view(&self) -> MdEventV {
        match self {
            MdEvent::Start(t) => MdEventV::Start(t@),
            MdEvent::End(t) => MdEventV::End(*t),
            MdEvent::Text(s) => MdEventV::Text(s@),
            MdEvent::Code(s) => MdEventV::Code(s@),
            MdEvent::InlineMath(s) => MdEventV::InlineMath(s@),
            MdEvent::DisplayMath(s) => MdEventV::DisplayMath(s@),
            MdEvent::Html(s) => MdEventV::Html(s@),
            MdEvent::InlineHtml(s) => MdEventV::InlineHtml(s@),
            MdEvent::FootnoteReference(s) => MdEventV::FootnoteReference(s@),
            MdEvent::SoftBreak => MdEventV::SoftBreak,
            MdEvent::HardBreak => MdEventV::HardBreak,
            MdEvent::Rule => MdEventV::Rule,
            MdEvent::TaskListMarker(b) => MdEventV::TaskListMarker(*b),
        }
    }
}

/// An event with the byte range of the source text that it stems from.
pub struct CmarkEvent {
    pub event: MdEvent,
    pub start: usize,
    pub end: usize,
}

impl View for CmarkEvent {
    type V = (MdEventV, usize, usize);

    open spec fn view(&self) -> (MdEventV, usize, usize) {
        (self.event@, self.start, self.end)
    }
}

/// The values of a sequence of events.
pub open spec fn cm_view(s: Seq<CmarkEvent>) -> Seq<(MdEventV, usize, usize)> {
    s.map_values(|e: CmarkEvent| e@)
}

/// The events, with their byte ranges, that `pulldown_cmark` produces for
/// `src` under the options `opts`.
pub uninterp spec fn cmark_events(src: Seq<char>, opts: ParserOptions) -> Seq<(MdEventV, usize, usize)>;

#[verifier::external_type_specification]
#[verifier::external_body]
pub struct ExEvent<'a>(Event<'a>);

#[verifier::external_type_specification]
#[verifier::external_body]
pub struct ExTag<'a>(Tag<'a>);

#[verifier::external_type_specification]
#[verifier::external_body]
pub struct ExTagEnd(TagEnd);

#[verifier::external_type_specification]
#[verifier::external_body]
pub struct ExCowStr<'a>(CowStr<'a>);

#[verifier::external_type_specification]
#[verifier::external_body]
pub struct ExHeadingLevel(HeadingLevel);

#[verifier::external_type_specification]
#[verifier::external_body]
pub struct ExBlockQuoteKind(BlockQuoteKind);

#[verifier::external_type_specification]
#[verifier::external_body]
pub struct ExAlignment(Alignment);

#[verifier::external_type_specification]
#[verifier::external_body]
pub struct ExOptions(pulldown_cmark::Options);

/// Runs `Parser::new_ext(src, opts).into_offset_iter()` and
/// collects its events. The contract only names the result: the events are a
/// function of the source text and the options.
#[verifier::external_body]
pub(crate) fn cmark_parse(src: &str, opts: &ParserOptions) -> (r: Vec<CmarkEvent>)
    ensures
        cm_view(r@) == cmark_events(src@, *opts),
{
    let mut out = Vec::new();
    let parser = Parser::new_ext(src, cmark_options(opts));
    for (e, range) in parser.into_offset_iter() {
        out.push(CmarkEvent { event: md_event(e), start: range.start, end: range.end });
    }
    out
}

/// The `pulldown_cmark::Options` flag set that `opts` describes (one
/// `Options::set` per flag); no contract, it only feeds [`cmark_parse`].
#[verifier::external_body]
fn cmark_options(opts: &ParserOptions) -> Options {
    let mut o = Options::empty();
    o.set(Options::ENABLE_TABLES, opts.tables);
    o.set(Options::ENABLE_FOOTNOTES, opts.footnotes);
    o.set(Options::ENABLE_STRIKETHROUGH, opts.strikethrough);
    o.set(Options::ENABLE_TASKLISTS, opts.tasklists);
    o.set(Options::ENABLE_HEADING_ATTRIBUTES, opts.heading_attributes);
    o.set(Options::ENABLE_MATH, opts.math);
    o.set(Options::ENABLE_GFM, opts.gfm);
    o.set(Options::ENABLE_DEFINITION_LIST, opts.definition_list);
    o.set(Options::ENABLE_SUPERSCRIPT, opts.superscript);
    o.set(Options::ENABLE_SUBSCRIPT, opts.subscript);
    o
}

/// Converts a `pulldown_cmark::Event`, variant for variant; the events that
/// carry text go through [`md_text_event`].
#[verifier::external_body]
fn md_event(e: Event<'_>) -> MdEvent {
    match e {
        Event::Start(t) => MdEvent::Start(md_tag(t)),
        Event::End(t) => MdEvent::End(md_end(t)),
        Event::SoftBreak => MdEvent::SoftBreak,
        Event::HardBreak => MdEvent::HardBreak,
        Event::Rule => MdEvent::Rule,
        Event::TaskListMarker(b) => MdEvent::TaskListMarker(b),
        other => md_text_event(other),
    }
}

/// Converts the `pulldown_cmark::Event`s that carry text, variant for variant.
#[verifier::external_body]
fn md_text_event(e: Event<'_>) -> MdEvent {
    match e {
        Event::Text(s) => MdEvent::Text(s.to_string()),
        Event::Code(s) => MdEvent::Code(s.to_string()),
        Event::InlineMath(s) => MdEvent::InlineMath(s.to_string()),
        Event::DisplayMath(s) => MdEvent::DisplayMath(s.to_string()),
        Event::Html(s) => MdEvent::Html(s.to_string()),
        Event::InlineHtml(s) => MdEvent::InlineHtml(s.to_string()),
        Event::FootnoteReference(s) => MdEvent::FootnoteReference(s.to_string()),
        _ => MdEvent::Rule,
    }
}

/// Converts the block-level `pulldown_cmark::Tag`s, variant for variant, and
/// hands the others to [`md_tag_table`].
#[verifier::external_body]
fn md_tag(t: Tag<'_>) -> MdTag {
    match t {
        Tag::Paragraph => MdTag::Paragraph,
        Tag::Heading { level, id, classes, attrs } => md_heading(level, id, classes, attrs),
        Tag::BlockQuote(k) => MdTag::BlockQuote(k.map(md_quote_kind)),
        Tag::CodeBlock(CodeBlockKind::Fenced(info)) => MdTag::CodeBlock(Some(info.to_string())),
        Tag::CodeBlock(CodeBlockKind::Indented) => MdTag::CodeBlock(None),
        Tag::HtmlBlock => MdTag::HtmlBlock,
        Tag::List(start) => MdTag::List(start),
        Tag::Item => MdTag::Item,
        Tag::FootnoteDefinition(l) => MdTag::FootnoteDefinition(l.to_string()),
        Tag::Table(aligns) => MdTag::Table(aligns.into_iter().map(md_align).collect()),
        other => md_tag_table(other),
    }
}

/// Converts the table and definition-list `pulldown_cmark::Tag`s, variant for
/// variant, and hands the others to [`md_tag_span`].
#[verifier::external_body]
fn md_tag_table(t: Tag<'_>) -> MdTag {
    match t {
        Tag::DefinitionList => MdTag::DefinitionList,
        Tag::DefinitionListTitle => MdTag::DefinitionListTitle,
        Tag::DefinitionListDefinition => MdTag::DefinitionListDefinition,
        Tag::TableHead => MdTag::TableHead,
        Tag::TableRow => MdTag::TableRow,
        Tag::TableCell => MdTag::TableCell,
        other => md_tag_span(other),
    }
}

/// Converts the span-level `pulldown_cmark::Tag`s, variant for variant
/// (`MetadataBlock` for the rest).
#[verifier::external_body]
fn md_tag_span(t: Tag<'_>) -> MdTag {
    match t {
        Tag::Emphasis => MdTag::Emphasis,
        Tag::Strong => MdTag::Strong,
        Tag::Strikethrough => MdTag::Strikethrough,
        Tag::Superscript => MdTag::Superscript,
        Tag::Subscript => MdTag::Subscript,
        Tag::Link { dest_url, title, .. } => MdTag::Link { dest_url: dest_url.to_string(), title: title.to_string() },
        Tag::Image { dest_url, title, .. } => MdTag::Image { dest_url: dest_url.to_string(), title: title.to_string() },
        _ => MdTag::MetadataBlock,
    }
}

/// Converts the fields of a `pulldown_cmark::Tag::Heading`.
#[verifier::external_body]
fn md_heading(
    level: HeadingLevel,
    id: Option<CowStr<'_>>,
    classes: Vec<CowStr<'_>>,
    attrs: Vec<(CowStr<'_>, Option<CowStr<'_>>)>,
) -> MdTag {
    let classes = classes.into_iter().map(|c| c.to_string()).collect();
    let attrs = attrs.into_iter().map(|(k, v)| (k.to_string(), v.map(|v| v.to_string()))).collect();
    MdTag::Heading { level: md_level(level), id: id.map(|s| s.to_string()), classes, attrs }
}

/// Converts a `pulldown_cmark::HeadingLevel`, variant for variant.
#[verifier::external_body]
fn md_level(l: HeadingLevel) -> Level {
    match l {
        HeadingLevel::H1 => Level::H1,
        HeadingLevel::H2 => Level::H2,
        HeadingLevel::H3 => Level::H3,
        HeadingLevel::H4 => Level::H4,
        HeadingLevel::H5 => Level::H5,
        HeadingLevel::H6 => Level::H6,
    }
}

/// Converts a `pulldown_cmark::BlockQuoteKind`, variant for variant.
#[verifier::external_body]
fn md_quote_kind(k: BlockQuoteKind) -> QuoteKind {
    match k {
        BlockQuoteKind::Note => QuoteKind::Note,
        BlockQuoteKind::Tip => QuoteKind::Tip,
        BlockQuoteKind::Important => QuoteKind::Important,
        BlockQuoteKind::Warning => QuoteKind::Warning,
        BlockQuoteKind::Caution => QuoteKind::Caution,
    }
}

/// Converts a `pulldown_cmark::Alignment`, variant for variant.
#[verifier::external_body]
fn md_align(a: Alignment) -> Align {
    match a {
        Alignment::None => Align::NoAlign,
        Alignment::Left => Align::Left,
        Alignment::Center => Align::Center,
        Alignment::Right => Align::Right,
    }
}

/// Converts the block-level `pulldown_cmark::TagEnd`s, variant for variant,
/// and hands the others to [`md_end_inline`].
#[verifier::external_body]
fn md_end(t: TagEnd) -> MdTagEnd {
    match t {
        TagEnd::Paragraph => MdTagEnd::Paragraph,
        TagEnd::Heading(l) => MdTagEnd::Heading(md_level(l)),
        TagEnd::BlockQuote(_) => MdTagEnd::BlockQuote,
        TagEnd::CodeBlock => MdTagEnd::CodeBlock,
        TagEnd::HtmlBlock => MdTagEnd::HtmlBlock,
        TagEnd::List(_) => MdTagEnd::List,
        TagEnd::Item => MdTagEnd::Item,
        TagEnd::FootnoteDefinition => MdTagEnd::FootnoteDefinition,
        TagEnd::Table => MdTagEnd::Table,
        TagEnd::TableHead => MdTagEnd::TableHead,
        TagEnd::TableRow => MdTagEnd::TableRow,
        TagEnd::TableCell => MdTagEnd::TableCell,
        other => md_end_inline(other),
    }
}

/// Converts the remaining `pulldown_cmark::TagEnd`s, variant for variant.
#[verifier::external_body]
fn md_end_inline(t: TagEnd) -> MdTagEnd {
    match t {
        TagEnd::DefinitionList => MdTagEnd::DefinitionList,
        TagEnd::DefinitionListTitle => MdTagEnd::DefinitionListTitle,
        TagEnd::DefinitionListDefinition => MdTagEnd::DefinitionListDefinition,
        TagEnd::Emphasis => MdTagEnd::Emphasis,
        TagEnd::Strong => MdTagEnd::Strong,
        TagEnd::Strikethrough => MdTagEnd::Strikethrough,
        TagEnd::Superscript => MdTagEnd::Superscript,
        TagEnd::Subscript => MdTagEnd::Subscript,
        TagEnd::Link => MdTagEnd::Link,
        TagEnd::Image => MdTagEnd::Image,
        _ => MdTagEnd::MetadataBlock,
    }
}

} // verus!
