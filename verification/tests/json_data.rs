use markplus_core::json::{
    json_data_to_ast, parse_frontmatter, parse_json_data_to_ast, validate_asset_json_str, validate_asset_json_value,
    SiteAsset,
};
use markplus_core::json_value::Json;
use markplus_core::CompileError;

fn get<'a>(v: &'a Json, key: &str) -> Option<&'a Json> {
    match v {
        Json::Object(m) => m.iter().find(|(k, _)| k == key).map(|(_, x)| x),
        _ => None,
    }
}

fn items(v: &Json) -> &[Json] {
    match v {
        Json::Array(a) => a.as_slice(),
        _ => panic!("not an array"),
    }
}

fn s(v: &str) -> Json {
    Json::Str(v.to_string())
}

fn obj(members: Vec<(&str, Json)>) -> Json {
    Json::Object(members.into_iter().map(|(k, v)| (k.to_string(), v)).collect())
}

#[test]
fn parse_frontmatter_some() {
    let raw = "title: hello\ndate: 2026-06-07\n";
    let meta = parse_frontmatter(Some(raw)).expect("parse failed");
    assert!(meta.is_some());
    let m = meta.unwrap();
    assert_eq!(get(&m, "title"), Some(&s("hello")));
}

#[test]
fn parse_frontmatter_none() {
    let meta = parse_frontmatter(None).expect("parse failed");
    assert!(meta.is_none());
}

#[test]
fn parse_frontmatter_invalid_yaml_errors() {
    let bad = "title: [unclosed\n";
    let err = parse_frontmatter(Some(bad));
    assert!(matches!(err, Err(CompileError::InvalidFrontmatter(_))));
}

#[test]
fn validate_asset_json_str_valid_and_invalid() {
    let s = r#"{"schema":{"major":1,"minor":2},"ast":[]}"#;
    assert!(validate_asset_json_str(s).is_ok());

    let bad = r#"{"schema":{"major":99,"minor":0},"ast":[]}"#;
    let err = validate_asset_json_str(bad).unwrap_err();
    assert!(err.iter().any(|e| e.contains("unexpected schema major version")));

    let syntactically_bad = "{ not json ";
    let err2 = validate_asset_json_str(syntactically_bad).unwrap_err();
    assert!(err2.iter().any(|e| e.contains("invalid JSON")));
}

#[test]
fn validate_top_level_not_object() {
    let err = validate_asset_json_str("[]").unwrap_err();
    assert!(err.iter().any(|e| e.contains("top-level JSON is not an object")));
}

#[test]
fn validate_missing_schema() {
    let bad = r#"{"ast":[]}"#;
    let err = validate_asset_json_str(bad).unwrap_err();
    assert!(err.iter().any(|e| e.contains("missing or invalid 'schema'")));
}

#[test]
fn validate_schema_wrong_type() {
    let bad = r#"{"schema":"one","ast":[]}"#;
    let err = validate_asset_json_str(bad).unwrap_err();
    assert!(err.iter().any(|e| e.contains("missing or invalid 'schema'")));
}

#[test]
fn validate_meta_wrong_type() {
    let bad = r#"{"schema":{"major":1,"minor":1},"meta":123,"ast":[]}"#;
    let err = validate_asset_json_str(bad).unwrap_err();
    assert!(err.iter().any(|e| e.contains("'meta' must be an object or null")));
}

#[test]
fn validate_ast_wrong_type_or_missing() {
    let bad1 = r#"{"schema":{"major":1,"minor":1}}"#;
    let err1 = validate_asset_json_str(bad1).unwrap_err();
    assert!(err1.iter().any(|e| e.contains("missing or invalid 'ast'")));

    let bad2 = r#"{"schema":{"major":1,"minor":1},"ast":{}}"#;
    let err2 = validate_asset_json_str(bad2).unwrap_err();
    assert!(err2.iter().any(|e| e.contains("missing or invalid 'ast'")));
}

#[test]
fn crate_root_and_module_validate_agree() {
    let s = r#"{"schema":{"major":1,"minor":2},"ast":[]}"#;
    assert!(markplus_core::json::validate_asset_json_str(s).is_ok());
    assert!(validate_asset_json_str(s).is_ok());
}

#[test]
fn crate_root_validate_rejects_invalid_json() {
    let bad = "{ not json }";
    let res = validate_asset_json_str(bad);
    assert!(res.is_err());
}

#[test]
fn validate_reports_every_problem_in_order() {
    let v = obj(vec![
        ("schema", obj(vec![("major", Json::Number("2".to_string()))])),
        ("meta", Json::Bool(true)),
    ]);
    let errs = validate_asset_json_value(&v).unwrap_err();
    assert_eq!(
        errs,
        vec![
            "unexpected schema major version: 2 (expected 1)".to_string(),
            "'meta' must be an object or null".to_string(),
            "missing or invalid 'ast' field (array)".to_string(),
        ]
    );
}

#[test]
fn validate_major_is_compared_in_full() {
    let big = r#"{"schema":{"major":4294967297,"minor":0},"ast":[]}"#;
    let err = validate_asset_json_str(big).unwrap_err();
    assert_eq!(err, vec!["unexpected schema major version: 4294967297 (expected 1)".to_string()]);
    let zero = r#"{"schema":{"major":"1"},"ast":[]}"#;
    let err = validate_asset_json_str(zero).unwrap_err();
    assert_eq!(err, vec!["unexpected schema major version: 0 (expected 1)".to_string()]);
}

#[test]
fn new_asset_has_current_schema() {
    let a = SiteAsset::new(None, vec![]);
    assert_eq!(a.schema.major, 1);
    assert_eq!(a.schema.minor, 2);
    assert!(a.meta.is_none());
    assert!(a.ast.is_empty());
}

#[test]
fn json_array_of_objects_becomes_table() {
    let ast = parse_json_data_to_ast(r#"[{"b":2,"a":"x"},5,{"a":"y","c":null}]"#).unwrap();
    assert_eq!(ast.len(), 1);
    let t = &ast[0];
    assert_eq!(get(t, "t"), Some(&s("table")));
    let headers = items(get(t, "headers").unwrap());
    assert_eq!(headers.len(), 2);
    let rows = items(get(t, "rows").unwrap());
    assert_eq!(rows.len(), 2);
    assert_eq!(items(get(t, "align").unwrap()).len(), 2);
}

trait CloneForTest {
    fn clone_for_test(&self) -> Json;
}

impl CloneForTest for Json {
    fn clone_for_test(&self) -> Json {
        match self {
            Json::Null => Json::Null,
            Json::Bool(b) => Json::Bool(*b),
            Json::Number(n) => Json::Number(n.clone()),
            Json::Float(n) => Json::Float(n.clone()),
            Json::Str(x) => Json::Str(x.clone()),
            Json::Array(a) => Json::Array(a.iter().map(|x| x.clone_for_test()).collect()),
            Json::Object(m) => Json::Object(m.iter().map(|(k, x)| (k.clone(), x.clone_for_test())).collect()),
        }
    }
}

#[test]
fn json_table_cells_use_value_text() {
    let ast = parse_json_data_to_ast(r#"[{"a":"x","b":2},{"a":[1,2]}]"#).unwrap();
    let rows = items(get(&ast[0], "rows").unwrap());
    let cell = |r: usize, c: usize| -> Json {
        let cell = &items(&rows[r])[c];
        get(&items(get(cell, "children").unwrap())[0], "text").unwrap().clone_for_test()
    };
    assert_eq!(cell(0, 0), s("x"));
    assert_eq!(cell(0, 1), s("2"));
    assert_eq!(cell(1, 0), s("[1,2]"));
    assert_eq!(cell(1, 1), s(""));
}

#[test]
fn json_object_becomes_definition_list() {
    let ast = parse_json_data_to_ast(r#"{"k":"v","n":1}"#).unwrap();
    let dl = &ast[0];
    assert_eq!(get(dl, "t"), Some(&s("definition_list")));
    let its = items(get(dl, "items").unwrap());
    assert_eq!(its.len(), 4);
    assert_eq!(get(&its[0], "t"), Some(&s("_def_title")));
    assert_eq!(get(&its[1], "t"), Some(&s("_def_body")));
    let body_text = get(&items(get(&its[3], "children").unwrap())[0], "text").unwrap();
    assert_eq!(body_text, &s("1"));
}

#[test]
fn json_scalar_becomes_fenced_block() {
    let ast = parse_json_data_to_ast("[1, 2]").unwrap();
    let f = &ast[0];
    assert_eq!(get(f, "t"), Some(&s("fenced")));
    assert_eq!(get(f, "name"), Some(&s("json")));
    assert_eq!(get(f, "raw"), Some(&s("[\n  1,\n  2\n]")));
}

#[test]
fn json_data_invalid_text_errors() {
    assert!(parse_json_data_to_ast("{").is_err());
}

#[test]
fn json_data_to_ast_on_a_built_value() {
    let v = Json::Array(vec![obj(vec![("k", s("v"))]), obj(vec![("k", Json::Bool(true))])]);
    let ast = json_data_to_ast(&v);
    let rows = items(get(&ast[0], "rows").unwrap());
    let text = |r: usize| get(&items(get(&items(&rows[r])[0], "children").unwrap())[0], "text").unwrap();
    assert_eq!(text(0), &s("v"));
    assert_eq!(text(1), &s("true"));
    let dl = json_data_to_ast(&obj(vec![]));
    assert_eq!(items(get(&dl[0], "items").unwrap()).len(), 0);
}

#[test]
fn wrong_schema_version_fails_validation() {
    let invalid = obj(vec![
        ("schema", obj(vec![("major", Json::Number("99".to_string())), ("minor", Json::Number("0".to_string()))])),
        ("ast", Json::Array(vec![])),
    ]);
    assert!(validate_asset_json_value(&invalid).is_err());
}

#[test]
fn empty_document_validates() {
    let asset = markplus_core::parse_document("").unwrap();
    assert_eq!(asset.ast.len(), 0);
    let tree = obj(vec![
        (
            "schema",
            obj(vec![
                ("major", Json::Number(asset.schema.major.to_string())),
                ("minor", Json::Number(asset.schema.minor.to_string())),
            ]),
        ),
        ("meta", Json::Null),
        ("ast", Json::Array(asset.ast)),
    ]);
    assert!(validate_asset_json_value(&tree).is_ok());
}

#[test]
fn parse_json_reads_values_and_reports_errors() {
    let v = markplus_core::json::parse_json("{\"a\":[1,true,null]}").unwrap();
    assert_eq!(
        v,
        obj(vec![("a", Json::Array(vec![Json::Number("1".to_string()), Json::Bool(true), Json::Null]))])
    );
    assert!(markplus_core::json::parse_json("{ not json }").is_err());
}
