use markplus_core::json::SiteAsset;
use markplus_core::json_value::Json;
use markplus_core::{get_frontmatter, parse_body, parse_document, strip_frontmatter, CompileError};

const FULL_DOC: &str = r#"---
title: note_101
category: hardware
tags:
  - mixer
  - optics
---
# High Frequency Core

```simby
[RFSoC Mixer] -> [Filter Block] -> [Optical Modulator]
```

Inline math: $E = mc^2$ and display math:

$$
\int_0^\infty e^{-x} dx = 1
$$

:[LO]{tooltip text="Local oscillator"}
"#;

fn get<'a>(v: &'a Json, key: &str) -> Option<&'a Json> {
    match v {
        Json::Object(m) => m.iter().find(|(k, _)| k == key).map(|(_, x)| x),
        _ => None,
    }
}

fn field<'a>(v: &'a Json, key: &str) -> &'a Json {
    get(v, key).unwrap_or_else(|| panic!("no member {key}"))
}

fn items(v: &Json) -> &[Json] {
    match v {
        Json::Array(a) => a.as_slice(),
        _ => panic!("not an array"),
    }
}

fn is_str(v: &Json, s: &str) -> bool {
    matches!(v, Json::Str(x) if x == s)
}

fn str_of(v: &Json) -> &str {
    match v {
        Json::Str(s) => s.as_str(),
        _ => panic!("not a string"),
    }
}

fn is_num(v: &Json, n: &str) -> bool {
    matches!(v, Json::Number(x) if x == n)
}

fn node_is(v: &Json, t: &str) -> bool {
    get(v, "t").map_or(false, |x| is_str(x, t))
}

fn find_block<'a>(ast: &'a [Json], t: &str) -> &'a Json {
    ast.iter().find(|node| node_is(node, t)).unwrap()
}

fn children(node: &Json) -> &[Json] {
    match get(node, "children") {
        Some(Json::Array(a)) => a.as_slice(),
        _ => &[],
    }
}

fn find_child<'a>(node: &'a Json, t: &str) -> &'a Json {
    children(node).iter().find(|child| node_is(child, t)).unwrap()
}

#[test]
fn parse_document_extracts_meta() {
    let asset = parse_document(FULL_DOC).unwrap();
    assert_eq!(asset.schema.major, SiteAsset::SCHEMA_MAJOR);
    assert_eq!(asset.schema.minor, SiteAsset::SCHEMA_MINOR);
    let meta = asset.meta.as_ref().unwrap();
    assert!(is_str(field(meta, "title"), "note_101"));
    assert!(is_str(field(meta, "category"), "hardware"));
    let tags = items(field(meta, "tags"));
    assert_eq!(tags.len(), 2);
    assert!(is_str(&tags[0], "mixer"));
    assert!(is_str(&tags[1], "optics"));
    match meta {
        Json::Object(m) => assert_eq!(m.len(), 3),
        _ => panic!("meta is not an object"),
    }
    assert!(!asset.ast.is_empty());
}

#[test]
fn ast_contains_heading() {
    let asset = parse_document(FULL_DOC).unwrap();
    let heading = find_block(&asset.ast, "heading");
    assert!(is_num(field(heading, "level"), "1"));
    assert!(is_str(field(&children(heading)[0], "text"), "High Frequency Core"));
}

#[test]
fn fenced_block_unified_shape() {
    let asset = parse_document(FULL_DOC).unwrap();
    let fenced = find_block(&asset.ast, "fenced");
    assert!(is_str(field(fenced, "name"), "simby"));
    assert!(str_of(field(fenced, "raw")).contains("RFSoC Mixer"));
}

#[test]
fn fenced_block_with_attrs() {
    let ast = parse_body("```python execute=true linenos\nprint('hi')\n```\n");
    let node = &ast[0];
    assert!(is_str(field(node, "t"), "fenced"));
    assert!(is_str(field(node, "name"), "python"));
    assert!(is_str(field(field(node, "attrs"), "execute"), "true"));
    assert_eq!(field(field(node, "attrs"), "linenos"), &Json::Bool(true));
    assert!(is_str(field(node, "raw"), "print('hi')"));
}

#[test]
fn inline_math_node() {
    let ast = parse_body("Inline: $E = mc^2$\n");
    let para = find_block(&ast, "paragraph");
    let math = find_child(para, "math_inline");
    assert!(str_of(field(math, "src")).contains("mc^2"));
}

#[test]
fn display_math_node() {
    let ast = parse_body("$$\n\\pi\n$$\n");
    let node = find_block(&ast, "math_block");
    assert!(str_of(field(node, "src")).contains("pi"));
}

#[test]
fn inline_widget_node() {
    let ast = parse_body("Some :[LO]{tooltip text=\"Local oscillator\"} text\n");
    let para = find_block(&ast, "paragraph");
    let widget = find_child(para, "widget");
    assert!(is_str(field(widget, "name"), "tooltip"));
    assert!(is_str(field(widget, "text"), "LO"));
    assert!(is_str(field(field(widget, "attrs"), "text"), "Local oscillator"));
}

#[test]
fn list_nested_structure() {
    let ast = parse_body("- alpha\n- beta\n- gamma\n");
    let list = find_block(&ast, "list");
    assert_eq!(field(list, "ordered"), &Json::Bool(false));
    assert_eq!(items(field(list, "items")).len(), 3);
}

#[test]
fn ordered_list() {
    let ast = parse_body("1. first\n2. second\n");
    let list = find_block(&ast, "list");
    assert_eq!(field(list, "ordered"), &Json::Bool(true));
    assert!(is_num(field(list, "start"), "1"));
}

#[test]
fn no_frontmatter_gives_none_meta() {
    let asset = parse_document("# Plain\n\nA note.\n").unwrap();
    assert!(asset.meta.is_none());
}

#[test]
fn invalid_frontmatter_returns_error() {
    let md = "---\n- list item\n---\n# Body\n";
    assert!(matches!(parse_document(md), Err(CompileError::InvalidFrontmatter(_))));
}

#[test]
fn strip_frontmatter_removes_yaml_block() {
    let body = strip_frontmatter(FULL_DOC);
    assert!(!body.contains("title: note_101"));
    assert!(body.contains("# High Frequency Core"));
}

#[test]
fn link_with_attrs() {
    let ast = parse_body("[datasheet](./rf.pdf){tooltip=docs download=true}\n");
    let para = find_block(&ast, "paragraph");
    let link = find_child(para, "link");
    assert!(is_str(field(link, "href"), "./rf.pdf"));
    assert!(is_str(field(field(link, "attrs"), "tooltip"), "docs"));
    assert!(is_str(field(field(link, "attrs"), "download"), "true"));
}

#[test]
fn link_without_attrs_still_works() {
    let ast = parse_body("[text](https://example.com)\n");
    let para = find_block(&ast, "paragraph");
    let link = find_child(para, "link");
    assert!(is_str(field(link, "href"), "https://example.com"));
}

#[test]
fn image_with_attrs() {
    let ast = parse_body("![Mixer chain](./mixer.png){width=480 class=diagram}\n");
    let para = find_block(&ast, "paragraph");
    let img = find_child(para, "image");
    assert!(is_str(field(img, "src"), "./mixer.png"));
    assert!(is_str(field(field(img, "attrs"), "width"), "480"));
    assert!(is_str(field(field(img, "attrs"), "class"), "diagram"));
}

#[test]
fn blockquote_with_inline_paragraph_children() {
    let ast = parse_body("> hello **world**\n");
    let blockquote = find_block(&ast, "blockquote");
    let para = find_child(blockquote, "paragraph");
    assert!(is_str(field(&children(para)[0], "text"), "hello "));
    assert!(is_str(field(find_child(para, "strong"), "t"), "strong"));
}

#[test]
fn list_item_with_nested_list() {
    let ast = parse_body("- item\n  - nested\n");
    let list = find_block(&ast, "list");
    let item = &items(field(list, "items"))[0];
    let nested = items(field(item, "children")).iter().find(|child| node_is(child, "list")).unwrap();
    assert_eq!(field(nested, "ordered"), &Json::Bool(false));
    assert_eq!(items(field(nested, "items")).len(), 1);
}

#[test]
fn blockquote_with_fenced_block() {
    let ast = parse_body("> ```js\n> alert(1)\n> ```\n");
    let blockquote = find_block(&ast, "blockquote");
    let fenced = find_child(blockquote, "fenced");
    assert!(is_str(field(fenced, "name"), "js"));
    assert!(is_str(field(fenced, "raw"), "alert(1)"));
}

#[test]
fn gfm_alert_note_blockquote_kind() {
    let ast = parse_body("> [!NOTE]\n> body\n");
    let blockquote = find_block(&ast, "blockquote");
    assert!(is_str(field(blockquote, "kind"), "note"));
}

#[test]
fn gfm_alert_warning_blockquote_kind() {
    let ast = parse_body("> [!WARNING]\n> body\n");
    let blockquote = find_block(&ast, "blockquote");
    assert!(is_str(field(blockquote, "kind"), "warning"));
}

#[test]
fn inline_math_in_heading_children() {
    let ast = parse_body("# Sum $x$\n");
    let heading = find_block(&ast, "heading");
    assert!(is_str(field(find_child(heading, "math_inline"), "src"), "x"));
}

#[test]
fn display_math_between_paragraphs() {
    let ast = parse_body("One\n\n$$\nA\n$$\n\nTwo\n");
    let first = ast
        .iter()
        .position(|node| {
            node_is(node, "paragraph")
                && children(node).iter().any(|child| get(child, "text").map_or(false, |t| is_str(t, "One")))
        })
        .unwrap();
    let math = ast.iter().position(|node| node_is(node, "math_block")).unwrap();
    let second = ast
        .iter()
        .rposition(|node| {
            node_is(node, "paragraph")
                && children(node).iter().any(|child| get(child, "text").map_or(false, |t| is_str(t, "Two")))
        })
        .unwrap();
    assert!(first < math && math < second);
}

#[test]
fn table_with_column_alignment() {
    let ast = parse_body("| L | C | R |\n| :-- | :-: | --: |\n| a | b | c |\n");
    let table = find_block(&ast, "table");
    let align = items(field(table, "align"));
    assert_eq!(align.len(), 3);
    assert!(is_str(&align[0], "left"));
    assert!(is_str(&align[1], "center"));
    assert!(is_str(&align[2], "right"));
}

#[test]
fn table_cell_with_inline_markup() {
    let ast = parse_body("| H |\n| - |\n| **x** |\n");
    let table = find_block(&ast, "table");
    let row = &items(field(table, "rows"))[0];
    let cell = &items(row)[0];
    assert!(is_str(field(find_child(cell, "strong"), "t"), "strong"));
}

#[test]
fn strikethrough_node_in_paragraph() {
    let ast = parse_body("~~gone~~\n");
    let para = find_block(&ast, "paragraph");
    assert!(is_str(field(find_child(para, "del"), "t"), "del"));
}

#[test]
fn superscript_node_in_paragraph() {
    let ast = parse_body("^up^\n");
    let para = find_block(&ast, "paragraph");
    assert!(is_str(field(find_child(para, "sup"), "t"), "sup"));
}

#[test]
fn subscript_node_in_paragraph() {
    let ast = parse_body("~down~\n");
    let para = find_block(&ast, "paragraph");
    assert!(is_str(field(find_child(para, "sub"), "t"), "sub"));
}

#[test]
fn link_with_title() {
    let ast = parse_body("[text](url \"title\")\n");
    let para = find_block(&ast, "paragraph");
    let link = find_child(para, "link");
    assert!(is_str(field(link, "title"), "title"));
}

#[test]
fn image_without_attrs_omits_attrs_field() {
    let ast = parse_body("![alt](img.png)\n");
    let para = find_block(&ast, "paragraph");
    let image = find_child(para, "image");
    assert!(is_str(field(image, "src"), "img.png"));
    assert!(get(image, "attrs").is_none());
}

#[test]
fn footnote_reference_node() {
    let ast = parse_body("ref[^1]\n\n[^1]: body\n");
    let para = find_block(&ast, "paragraph");
    assert!(is_str(field(find_child(para, "footnote_ref"), "label"), "1"));
}

#[test]
fn footnote_definition_block() {
    let ast = parse_body("ref[^1]\n\n[^1]: body\n");
    let def = find_block(&ast, "footnote_def");
    assert!(is_str(field(def, "label"), "1"));
    assert!(is_str(field(find_child(def, "paragraph"), "t"), "paragraph"));
}

#[test]
fn widget_at_start_of_paragraph() {
    let ast = parse_body(":[LO]{tooltip text=hi} end\n");
    let para = find_block(&ast, "paragraph");
    assert!(is_str(field(&children(para)[0], "t"), "widget"));
    assert!(is_str(field(&children(para)[1], "text"), " end"));
}

#[test]
fn widget_at_end_of_paragraph() {
    let ast = parse_body("start :[LO]{tooltip text=hi}\n");
    let para = find_block(&ast, "paragraph");
    let last = children(para).last().unwrap();
    assert!(is_str(field(last, "t"), "widget"));
    assert!(is_str(field(last, "name"), "tooltip"));
}

#[test]
fn multiple_widgets_in_same_paragraph() {
    let ast = parse_body("A :[X]{w} B :[Y]{z}\n");
    let para = find_block(&ast, "paragraph");
    assert_eq!(children(para).iter().filter(|child| node_is(child, "widget")).count(), 2);
}

#[test]
fn indented_code_block_uses_empty_name() {
    let ast = parse_body("    code\n");
    assert!(is_str(field(&ast[0], "name"), ""));
}

#[test]
fn fenced_block_without_info_has_empty_name() {
    let ast = parse_body("```\nplain\n```\n");
    assert!(is_str(field(&ast[0], "name"), ""));
}

#[test]
fn fenced_block_flag_only_attr() {
    let ast = parse_body("```python flag\nprint(1)\n```\n");
    assert!(is_str(field(&ast[0], "name"), "python"));
    assert_eq!(
        field(&ast[0], "attrs"),
        &Json::Object(vec![("flag".to_string(), Json::Bool(true))])
    );
}

#[test]
fn strip_frontmatter_supports_dots_closing_delimiter() {
    let raw = "---\ntitle: dotted\n...\n# Body\n";
    assert_eq!(strip_frontmatter(raw), "# Body\n");
}

#[test]
fn strip_frontmatter_without_frontmatter_returns_input() {
    let raw = "# Plain\n\nBody\n";
    assert_eq!(strip_frontmatter(raw), raw);
}

#[test]
fn hard_break_node_in_paragraph() {
    let ast = parse_body("a  \nb\n");
    let para = find_block(&ast, "paragraph");
    assert!(is_str(field(find_child(para, "hard_break"), "t"), "hard_break"));
}

#[test]
fn site_asset_schema_version_is_1_2() {
    assert_eq!(SiteAsset::SCHEMA_MAJOR, 1);
    assert_eq!(SiteAsset::SCHEMA_MINOR, 2);
}

#[test]
fn directive_basic() {
    let ast = parse_body(":::note\nhello\n:::\n");
    let dir = &ast[0];
    assert!(is_str(field(dir, "t"), "directive"));
    assert!(is_str(field(dir, "name"), "note"));
    let kids = items(field(dir, "children"));
    assert!(is_str(field(&kids[0], "t"), "paragraph"));
    assert!(is_str(field(&children(&kids[0])[0], "text"), "hello"));
}

#[test]
fn directive_with_attrs() {
    let ast = parse_body(":::callout type=warning\nbody\n:::\n");
    let dir = &ast[0];
    assert!(is_str(field(dir, "name"), "callout"));
    assert!(is_str(field(field(dir, "attrs"), "type"), "warning"));
}

#[test]
fn directive_named_close() {
    let ast = parse_body(":::tabs\nA\n:::/tabs\n");
    let dir = &ast[0];
    assert!(is_str(field(dir, "name"), "tabs"));
    assert_eq!(items(field(dir, "children")).len(), 1);
}

#[test]
fn directive_bare_close() {
    let ast = parse_body(":::tabs\nA\n:::\n");
    let dir = &ast[0];
    assert!(is_str(field(dir, "name"), "tabs"));
    assert_eq!(items(field(dir, "children")).len(), 1);
}

#[test]
fn directive_nested() {
    let ast = parse_body(":::columns\n:::col\nA\n:::\n:::\n");
    let outer = &ast[0];
    assert!(is_str(field(outer, "name"), "columns"));
    let inner = &items(field(outer, "children"))[0];
    assert!(is_str(field(inner, "name"), "col"));
}

#[test]
fn directive_fenced_guard() {
    let ast = parse_body("```\n:::fake\n```\n");
    let fenced = &ast[0];
    assert!(is_str(field(fenced, "t"), "fenced"));
    assert!(str_of(field(fenced, "raw")).contains(":::fake"));
}

#[test]
fn directive_ranges_correct() {
    let ast = parse_body("A\n\n:::note\nB\n:::\n\nC\n");
    assert_eq!(ast.len(), 3);
    assert!(is_str(field(&ast[0], "t"), "paragraph"));
    assert!(is_str(field(&ast[1], "t"), "directive"));
    assert!(is_str(field(&ast[2], "t"), "paragraph"));
}

#[test]
fn directive_mixed_content() {
    let ast = parse_body("# Head\n\n:::note\nA\n:::\n\nPara\n");
    assert!(is_str(field(&ast[0], "t"), "heading"));
    assert!(is_str(field(&ast[1], "t"), "directive"));
    assert!(is_str(field(&ast[2], "t"), "paragraph"));
}

#[test]
fn frontmatter_block_list() {
    let asset = parse_document("---\ntags:\n  - a\n  - b\n---\nhi").unwrap();
    let meta = asset.meta.unwrap();
    let tags = items(field(&meta, "tags"));
    assert_eq!(tags.len(), 2);
    assert!(is_str(&tags[0], "a"));
    assert!(is_str(&tags[1], "b"));
}

#[test]
fn frontmatter_nested_object() {
    let asset = parse_document("---\nauthor:\n  name: x\n---\nhi").unwrap();
    let meta = asset.meta.unwrap();
    assert!(is_str(field(field(&meta, "author"), "name"), "x"));
}

#[test]
fn frontmatter_flow_list() {
    let asset = parse_document("---\ntags: [a, b]\n---\nhi").unwrap();
    let meta = asset.meta.unwrap();
    let tags = items(field(&meta, "tags"));
    assert_eq!(tags.len(), 2);
    assert!(is_str(&tags[0], "a"));
    assert!(is_str(&tags[1], "b"));
}

#[test]
fn frontmatter_bool() {
    let asset = parse_document("---\ndraft: true\n---\nhi").unwrap();
    assert_eq!(field(&asset.meta.unwrap(), "draft"), &Json::Bool(true));
}

#[test]
fn frontmatter_int() {
    let asset = parse_document("---\nweight: 5\n---\nhi").unwrap();
    assert!(is_num(field(&asset.meta.unwrap(), "weight"), "5"));
}

#[test]
fn frontmatter_quoted_string() {
    let asset = parse_document("---\ntitle: \"hello: world\"\n---\nhi").unwrap();
    assert!(is_str(field(&asset.meta.unwrap(), "title"), "hello: world"));
}

#[test]
fn widget_across_softbreak() {
    let ast = parse_body(":[LO]{tooltip\ntext=hi}\n");
    let para = &ast[0];
    let widget = &items(field(para, "children"))[0];
    assert!(is_str(field(widget, "t"), "widget"));
    assert!(is_str(field(widget, "name"), "tooltip"));
}

#[test]
fn link_attrs_remainder() {
    let ast = parse_body("[text](url){key=val} more\n");
    let para = &ast[0];
    let kids = items(field(para, "children"));
    assert!(is_str(field(&kids[0], "t"), "link"));
    assert!(is_str(field(field(&kids[0], "attrs"), "key"), "val"));
    assert!(is_str(field(&kids[1], "text"), " more"));
}

#[test]
fn get_frontmatter_returns_raw_yaml() {
    assert_eq!(get_frontmatter("---\na: 1\nb: 2\n---\nbody".to_string()), "a: 1\nb: 2\n");
    assert_eq!(get_frontmatter("no frontmatter".to_string()), "");
}

#[test]
fn directive_unclosed_keeps_text() {
    let ast = parse_body(":::note\nstill here\n");
    assert!(ast.iter().all(|n| !node_is(n, "directive")));
    let para = find_block(&ast, "paragraph");
    assert!(children(para).iter().any(|c| get(c, "text").map_or(false, |t| str_of(t).contains("still here"))));
}

#[test]
fn directive_range_is_byte_range_of_block() {
    let src = "é\n\n:::note\nB\n:::\n";
    let ast = parse_body(src);
    let dir = ast.iter().find(|n| node_is(n, "directive")).unwrap();
    let range = items(field(dir, "range"));
    assert!(is_num(&range[0], "4"));
    assert!(is_num(&range[1], &src.len().to_string()));
}

#[test]
fn html_block_keeps_its_html() {
    let ast = parse_body("<div>\nhi\n</div>\n");
    assert!(node_is(&ast[0], "html_block"));
    assert!(is_str(field(&ast[0], "html"), "<div>\nhi\n</div>\n"));
}

#[test]
fn fenced_without_attrs_has_empty_attrs_object() {
    let plain = parse_body("```\nplain\n```\n");
    assert_eq!(field(&plain[0], "attrs"), &Json::Object(vec![]));
    let indented = parse_body("    code\n");
    assert!(is_str(field(&indented[0], "name"), ""));
    assert_eq!(field(&indented[0], "attrs"), &Json::Object(vec![]));
}

#[test]
fn rule_inside_blockquote_is_its_child() {
    let ast = parse_body("> a\n>\n> ***\n");
    assert_eq!(ast.len(), 1);
    assert!(node_is(&ast[0], "blockquote"));
    let kids = items(field(&ast[0], "children"));
    assert_eq!(kids.len(), 2);
    assert!(node_is(&kids[0], "paragraph"));
    assert!(node_is(&kids[1], "hr"));
}

#[test]
fn soft_break_is_its_own_node() {
    let ast = parse_body("a\nb\n");
    let kids = items(field(&ast[0], "children"));
    let types: Vec<&str> = kids.iter().map(|k| str_of(field(k, "t"))).collect();
    assert_eq!(types, vec!["text", "soft_break", "text"]);
    assert!(is_str(field(&kids[0], "text"), "a"));
    assert!(is_str(field(&kids[2], "text"), "b"));
}

#[test]
fn failed_widget_text_is_emitted_once() {
    let ast = parse_body("a :[b\n");
    let kids = items(field(&ast[0], "children"));
    let text: String = kids.iter().map(|k| str_of(field(k, "text"))).collect();
    assert_eq!(text, "a :[b");
}

#[test]
fn blocks_carry_their_schema_fields() {
    let ast = parse_body("# T\n\n```py x=1\ncode\n```\n\n- a\n\n| h |\n|---|\n| c |\n\n<div>x</div>\n");
    let heading = find_block(&ast, "heading");
    assert!(matches!(field(heading, "level"), Json::Number(_)));
    assert!(matches!(field(heading, "children"), Json::Array(_)));
    let fenced = find_block(&ast, "fenced");
    assert!(matches!(field(fenced, "name"), Json::Str(_)));
    assert!(matches!(field(fenced, "attrs"), Json::Object(_)));
    assert!(matches!(field(fenced, "raw"), Json::Str(_)));
    let list = find_block(&ast, "list");
    assert!(matches!(field(list, "ordered"), Json::Bool(false)));
    assert!(matches!(field(list, "items"), Json::Array(_)));
    let table = find_block(&ast, "table");
    for k in ["align", "headers", "rows"] {
        assert!(matches!(field(table, k), Json::Array(_)));
    }
    let html = find_block(&ast, "html_block");
    assert!(matches!(field(html, "html"), Json::Str(_)));
    for b in &ast {
        assert!(matches!(field(b, "range"), Json::Array(_)));
    }
}

#[test]
fn lenient_document_drops_bad_frontmatter() {
    let a = markplus_core::parse_document_lenient("---\na: \"\n---\n# Hi\n");
    assert!(a.meta.is_none());
    assert_eq!(a.ast.len(), 1);
    let b = markplus_core::parse_document_lenient("---\ntitle: x\n---\n# Hi\n");
    assert!(b.meta.is_some());
}
