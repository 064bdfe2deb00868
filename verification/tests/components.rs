use markplus_core::cmark::MdEvent;
use markplus_core::event_filter::RichEvent;
use markplus_core::widgets::scan_inline_widgets;
use markplus_core::attrs::tokenize_attrs;
use markplus_core::event_filter::frontmatter_prepass;
use markplus_core::frontmatter::{get_indent, parse_yaml_frontmatter, split_key_val};
use markplus_core::json_value::Json;
use markplus_core::mermaid::parse_mermaid_to_fenced_ast;
use markplus_core::plugins::{
    default_registry, escape_attr, escape_typst_string, HtmlDependencies, MermaidPlugin, Plugin,
    PluginRegistry, SimbyPlugin,
};
use markplus_core::prepass::{directive_prepass, mask_line};

fn get<'a>(v: &'a Json, key: &str) -> Option<&'a Json> {
    match v {
        Json::Object(m) => m.iter().find(|(k, _)| k == key).map(|(_, x)| x),
        _ => None,
    }
}

fn s(v: &str) -> Json {
    Json::Str(v.to_string())
}

#[test]
fn parse_mermaid_basic() {
    let attrs = Vec::new();
    let v = parse_mermaid_to_fenced_ast("graph TD\nA --> B\n", &attrs);
    assert_eq!(get(&v, "t"), Some(&s("fenced")));
    assert_eq!(get(&v, "name"), Some(&s("mermaid")));
    assert_eq!(get(&v, "raw"), Some(&s("graph TD\nA --> B")));
}

#[test]
fn parse_mermaid_passes_attrs() {
    let attrs = vec![
        ("theme".to_string(), s("dark")),
        ("src".to_string(), s("./diagram.mmd")),
    ];
    let v = parse_mermaid_to_fenced_ast("graph LR\nX --> Y", &attrs);
    let a = get(&v, "attrs").unwrap();
    assert_eq!(get(a, "theme"), Some(&s("dark")));
    assert!(get(a, "src").is_none());
}

#[test]
fn escape_attr_escapes_html_specials() {
    assert_eq!(escape_attr("a<b>&\"c'"), "a&lt;b&gt;&amp;&quot;c&#39;");
    assert_eq!(escape_attr("plain é"), "plain é");
}

#[test]
fn escape_typst_string_escapes_quotes() {
    assert_eq!(escape_typst_string("say \"hi\""), "say \\\"hi\\\"");
    assert_eq!(escape_typst_string("no quotes"), "no quotes");
}

#[test]
fn plugins_render_placeholders() {
    let token = Json::Object(vec![("raw".to_string(), s("A-->B \"x\""))]);
    let m = MermaidPlugin;
    assert_eq!(m.name(), "mermaid");
    assert_eq!(
        m.render_html(&token).unwrap(),
        "<div class=\"markplus-plugin\" data-plugin=\"mermaid\" data-raw=\"A--&gt;B &quot;x&quot;\"></div>"
    );
    assert_eq!(m.render_typst(&token).unwrap(), "#markplus-mermaid(\"A-->B \\\"x\\\"\")");
    let sb = SimbyPlugin;
    assert_eq!(sb.render_html(&Json::Null).unwrap(), "<div class=\"markplus-plugin\" data-plugin=\"simby\" data-raw=\"\"></div>");
    assert_eq!(sb.render_typst(&Json::Null).unwrap(), "#markplus-simby(\"\")");
    assert!(m.parse("x").is_none());
    assert!(m.html_dependencies().is_none());
}

#[test]
fn registry_finds_plugins_by_name() {
    let reg = default_registry();
    assert_eq!(reg.get("mermaid").unwrap().name(), "mermaid");
    assert_eq!(reg.get("simby").unwrap().name(), "simby");
    assert!(reg.get("other").is_none());
    let mut r2 = PluginRegistry::new();
    assert!(r2.get("mermaid").is_none());
    r2.register(Box::new(MermaidPlugin));
    r2.register(Box::new(MermaidPlugin));
    assert!(r2.get("mermaid").is_some());
}

#[test]
fn html_dependencies_holds_lists() {
    let d = HtmlDependencies { scripts: vec!["a.js".to_string()], wasm_modules: vec![], styles: vec![] };
    assert_eq!(d.scripts.len(), 1);
}

#[test]
fn tokenize_attrs_splits_on_separators_and_quotes() {
    assert_eq!(tokenize_attrs("a b,c\td"), vec!["a", "b", "c", "d"]);
    assert_eq!(tokenize_attrs("text=\"Local oscillator\" x"), vec!["text=Local oscillator", "x"]);
    assert!(tokenize_attrs("  , ").is_empty());
}

#[test]
fn frontmatter_prepass_splits_body_and_yaml() {
    let (body, fm) = frontmatter_prepass("---\ntitle: x\n---\nbody\n");
    assert_eq!(body, "body\n");
    assert_eq!(fm.unwrap(), "title: x\n");
    let (body2, fm2) = frontmatter_prepass("---\nunterminated\n");
    assert_eq!(body2, "---\nunterminated\n");
    assert!(fm2.is_none());
    let (body3, fm3) = frontmatter_prepass("---\r\na: 1\r\n...\r\nrest");
    assert_eq!(body3, "rest");
    assert_eq!(fm3.unwrap(), "a: 1\r\n");
}

#[test]
fn mask_line_keeps_byte_length() {
    assert_eq!(mask_line("abc\n"), "   \n");
    assert_eq!(mask_line("ab\r\n"), "  \r\n");
    assert_eq!(mask_line("é"), "  ");
    assert_eq!(mask_line(""), "");
}

#[test]
fn directive_prepass_masks_and_records() {
    let (masked, dirs) = directive_prepass("x\n:::note\nhi\n:::\ny\n");
    assert_eq!(masked, "x\n       \n  \n   \ny\n");
    assert_eq!(masked.len(), "x\n:::note\nhi\n:::\ny\n".len());
    assert_eq!(dirs.len(), 1);
    assert_eq!(dirs[0].0, 2);
}

#[test]
fn directive_prepass_unclosed_restores_text() {
    let src = "a\n:::note\nb\n";
    let (masked, dirs) = directive_prepass(src);
    assert_eq!(masked, src);
    assert!(dirs.is_empty());
}

#[test]
fn get_indent_counts_spaces() {
    assert_eq!(get_indent("   x"), 3);
    assert_eq!(get_indent("\tx"), 0);
    assert_eq!(get_indent(""), 0);
}

#[test]
fn split_key_val_requires_space_or_end() {
    assert_eq!(split_key_val("a: b"), Some(("a", "b")));
    assert_eq!(split_key_val("key:"), Some(("key", "")));
    assert_eq!(split_key_val("url:http://x"), None);
    assert_eq!(split_key_val("no colon"), None);
    assert_eq!(split_key_val(" k :  v  "), Some(("k", "v")));
}

#[test]
fn yaml_scalars_and_blocks() {
    let raw = "a: -12\nb: 1.5\nc: 'q'\nd: [x, 'y', 3]\ne:\nf: 99999999999999999999\ng: inf\nh: 2026-06-07\n";
    let m = parse_yaml_frontmatter(Some(raw)).unwrap().unwrap();
    assert_eq!(get(&m, "a"), Some(&Json::Number("-12".to_string())));
    assert_eq!(get(&m, "b"), Some(&Json::Float("1.5".to_string())));
    assert_eq!(get(&m, "c"), Some(&s("q")));
    assert_eq!(
        get(&m, "d"),
        Some(&Json::Array(vec![s("x"), s("y"), Json::Number("3".to_string())]))
    );
    assert_eq!(get(&m, "e"), Some(&Json::Null));
    assert_eq!(get(&m, "f"), Some(&Json::Float("99999999999999999999".to_string())));
    assert_eq!(get(&m, "g"), Some(&Json::Float("inf".to_string())));
    assert_eq!(get(&m, "h"), Some(&s("2026-06-07")));
}

#[test]
fn yaml_empty_and_list_top_level() {
    assert!(parse_yaml_frontmatter(None).unwrap().is_none());
    assert!(parse_yaml_frontmatter(Some("   \n ")).unwrap().is_none());
    assert!(parse_yaml_frontmatter(Some("- a\n- b")).is_err());
    assert!(parse_yaml_frontmatter(Some("just text")).is_err());
}

#[test]
fn yaml_stops_at_unexpected_indent() {
    let m = parse_yaml_frontmatter(Some("a: 1\n  b: 2\nc: 3")).unwrap().unwrap();
    assert_eq!(get(&m, "a"), Some(&Json::Number("1".to_string())));
    assert!(get(&m, "c").is_none());
}

#[test]
fn csv_options_default_values() {
    let o = markplus_core::csv::CsvReadOptions::default();
    assert_eq!(o.start_line, 1);
    assert!(!o.header);
    assert!(o.header_line.is_none());
    assert!(o.row_range.is_none());
    assert!(o.col_range.is_none());
    assert_eq!(o.delimiter, b',');
}

#[test]
fn compile_error_message_names_the_detail() {
    let e = markplus_core::CompileError::InvalidFrontmatter("invalid block".to_string());
    assert_eq!(e.message(), "invalid frontmatter: invalid block");
}

#[test]
fn lone_quote_scalar_is_invalid_frontmatter() {
    let bad = markplus_core::CompileError::InvalidFrontmatter("invalid scalar".to_string());
    assert_eq!(markplus_core::parse_document("---\na: \"\n---\nbody").unwrap_err(), bad);
    assert_eq!(markplus_core::parse_document("---\na: [x, ']\n---\nbody").unwrap_err(), bad);
    assert!(markplus_core::parse_document("---\na: \"\"\n---\nbody").is_ok());
}

#[test]
fn parser_options_enable_every_extension() {
    let o = markplus_core::config::parser_options();
    assert!(o.tables && o.footnotes && o.strikethrough && o.tasklists && o.heading_attributes);
    assert!(o.math && o.gfm && o.definition_list && o.superscript && o.subscript);
}

#[test]
fn directive_table_is_in_source_order() {
    let src = ":::a\nx\n:::\n\n:::b\n:::c\ny\n:::\n:::\n\n:::d\nz\n:::\n";
    let (_masked, dirs) = directive_prepass(src);
    let starts: Vec<usize> = dirs.iter().map(|(s, _)| *s).collect();
    assert_eq!(starts, vec![0, 12, 33]);
    assert!(starts.windows(2).all(|w| w[0] < w[1]));
    assert!(starts.iter().all(|s| *s < src.len()));
}

#[test]
fn failed_widget_scan_has_contiguous_ranges() {
    let s: Vec<char> = "a :[b".chars().collect();
    let mut texts = vec![];
    let mut ranges = vec![];
    for e in scan_inline_widgets(&s, 0) {
        match e {
            RichEvent::Cmark(MdEvent::Text(t), a, b) => {
                texts.push(t);
                ranges.push((a, b));
            }
            _ => panic!("no widget expected"),
        }
    }
    assert_eq!(texts, vec!["a ".to_string(), ":[".to_string(), "b".to_string()]);
    assert_eq!(ranges, vec![(0, 2), (2, 4), (4, 5)]);
}

#[test]
fn tokens_of_joined_texts_concatenate() {
    let a = "k=\"v w\" flag";
    let b = "x=1,y";
    let joined = tokenize_attrs(&format!("{} {}", a, b));
    let mut parts = tokenize_attrs(a);
    parts.extend(tokenize_attrs(b));
    assert_eq!(joined, parts);
    assert_eq!(joined, vec!["k=v w", "flag", "x=1", "y"]);
}
