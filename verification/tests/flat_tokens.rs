use markplus_core::cmark::{Level, MdEvent, MdTag, MdTagEnd};
use markplus_core::flat::{compile_to_ast, MarkplusEvent, PluginBlock};
use markplus_core::json_value::Json;
use markplus_core::plugins::default_registry;
use markplus_core::typst::compile_to_typst;

fn obj(members: Vec<(&str, Json)>) -> Json {
    Json::Object(members.into_iter().map(|(k, v)| (k.to_string(), v)).collect())
}

fn s(v: &str) -> Json {
    Json::Str(v.to_string())
}

fn md(e: MdEvent) -> MarkplusEvent {
    MarkplusEvent::Markdown(e)
}

fn start(t: MdTag) -> MarkplusEvent {
    md(MdEvent::Start(t))
}

fn end(t: MdTagEnd) -> MarkplusEvent {
    md(MdEvent::End(t))
}

fn text(t: &str) -> MarkplusEvent {
    md(MdEvent::Text(t.to_string()))
}

fn heading(level: Level) -> MdTag {
    MdTag::Heading { level, id: None, classes: vec![], attrs: vec![] }
}

fn sample_stream() -> Vec<MarkplusEvent> {
    vec![
        start(heading(Level::H2)),
        text("  Title "),
        end(MdTagEnd::Heading(Level::H2)),
        start(MdTag::Paragraph),
        text("a"),
        md(MdEvent::SoftBreak),
        md(MdEvent::Code("b".to_string())),
        end(MdTagEnd::Paragraph),
        MarkplusEvent::Plugin(PluginBlock { name: "mermaid".to_string(), body: "A-->B".to_string() }),
        md(MdEvent::Rule),
        start(MdTag::CodeBlock(Some("rust".to_string()))),
        text("  fn x() {}\n\n"),
        end(MdTagEnd::CodeBlock),
        start(MdTag::Table(vec![])),
        start(MdTag::TableHead),
        start(MdTag::TableCell),
        text(" h1 "),
        end(MdTagEnd::TableCell),
        end(MdTagEnd::TableHead),
        start(MdTag::TableRow),
        start(MdTag::TableCell),
        text("c"),
        end(MdTagEnd::TableCell),
        end(MdTagEnd::TableRow),
        end(MdTagEnd::Table),
        start(MdTag::List(None)),
        start(MdTag::Item),
        text("x "),
        end(MdTagEnd::Item),
        end(MdTagEnd::List),
    ]
}

#[test]
fn flat_tokens_from_events() {
    let tokens = compile_to_ast(&sample_stream());
    assert_eq!(
        tokens,
        vec![
            obj(vec![("type", s("heading")), ("level", Json::Number("2".to_string())), ("text", s("Title"))]),
            obj(vec![("type", s("paragraph")), ("text", s("a\nb"))]),
            obj(vec![("type", s("plugin")), ("engine", s("mermaid")), ("raw", s("A-->B"))]),
            obj(vec![("type", s("hr"))]),
            obj(vec![("type", s("code_block")), ("language", s("rust")), ("code", s("  fn x() {}"))]),
            obj(vec![
                ("type", s("table")),
                ("headers", Json::Array(vec![s("h1")])),
                ("rows", Json::Array(vec![Json::Array(vec![s("c")])])),
            ]),
            obj(vec![("type", s("list_item")), ("text", s("x"))]),
        ]
    );
}

#[test]
fn flat_indented_code_has_empty_language() {
    let tokens = compile_to_ast(&[start(MdTag::CodeBlock(None)), text("x\n"), end(MdTagEnd::CodeBlock)]);
    assert_eq!(tokens, vec![obj(vec![("type", s("code_block")), ("language", s("")), ("code", s("x"))])]);
}

#[test]
fn flat_code_end_after_inner_tag_gives_nothing() {
    // The code block's info is forgotten once another tag closes.
    let tokens = compile_to_ast(&[
        start(MdTag::CodeBlock(Some("rs".to_string()))),
        end(MdTagEnd::Emphasis),
        end(MdTagEnd::CodeBlock),
    ]);
    assert!(tokens.is_empty());
}

#[test]
fn flat_empty_stream_gives_no_tokens() {
    assert!(compile_to_ast(&[]).is_empty());
}

#[test]
fn flat_tokens_compile_to_typst() {
    let tokens = compile_to_ast(&sample_stream());
    let out = compile_to_typst(&tokens, &default_registry());
    assert!(out.starts_with("== Title\n\na\nb\n\n"));
    assert!(out.contains("---\n\n```rust\n  fn x() {}\n```\n\n#table(\n  columns: 1,\n  [h1],\n  [c],\n)\n\n- x"));
}
