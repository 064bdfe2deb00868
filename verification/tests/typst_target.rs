use markplus_core::json_value::Json;
use markplus_core::plugins::default_registry;
use markplus_core::typst::compile_to_typst;

fn obj(members: Vec<(&str, Json)>) -> Json {
    Json::Object(members.into_iter().map(|(k, v)| (k.to_string(), v)).collect())
}

fn s(v: &str) -> Json {
    Json::Str(v.to_string())
}

#[test]
fn typst_compiles_basic_tokens() {
    let tokens = vec![
        obj(vec![("type", s("heading")), ("level", Json::Number("2".to_string())), ("text", s("Title"))]),
        obj(vec![("type", s("paragraph")), ("text", s("Body"))]),
        obj(vec![("type", s("code_block")), ("language", s("rs")), ("code", s("fn f() {}"))]),
        obj(vec![("type", s("hr"))]),
        obj(vec![("type", s("list_item")), ("text", s("one"))]),
        obj(vec![("type", s("unknown"))]),
    ];
    let out = compile_to_typst(&tokens, &default_registry());
    assert_eq!(out, "== Title\n\nBody\n\n```rs\nfn f() {}\n```\n\n---\n\n- one");
}

#[test]
fn typst_compiles_tables_and_plugins() {
    let tokens = vec![
        obj(vec![
            ("type", s("table")),
            ("headers", Json::Array(vec![s("A"), s("B")])),
            ("rows", Json::Array(vec![Json::Array(vec![s("1"), Json::Null])])),
        ]),
        obj(vec![("type", s("plugin")), ("engine", s("mermaid")), ("raw", s("A-->B"))]),
        obj(vec![("type", s("plugin")), ("engine", s("nope")), ("raw", s("x"))]),
    ];
    let out = compile_to_typst(&tokens, &default_registry());
    assert_eq!(
        out,
        "#table(\n  columns: 2,\n  [A],\n  [B],\n  [1],\n  [],\n)\n\n#markplus-mermaid(\"A-->B\")"
    );
}

#[test]
fn typst_heading_level_defaults_to_one() {
    let tokens = vec![obj(vec![("type", s("heading")), ("text", s("T"))])];
    assert_eq!(compile_to_typst(&tokens, &default_registry()), "= T");
}
