use markplus_core::code::{extension_to_language, is_known_code_extension, parse_code_to_fenced_ast};
use markplus_core::json_value::Json;

fn member<'a>(v: &'a Json, key: &str) -> &'a Json {
    match v {
        Json::Object(m) => &m.iter().find(|(k, _)| k == key).unwrap().1,
        _ => panic!("not an object"),
    }
}

fn text(v: &Json) -> &str {
    match v {
        Json::Str(s) => s,
        _ => panic!("not a string"),
    }
}

#[test]
fn extension_mapping_rust() {
    assert_eq!(extension_to_language("rs"), "rust");
}

#[test]
fn extension_mapping_python() {
    assert_eq!(extension_to_language("py"), "python");
}

#[test]
fn extension_mapping_javascript() {
    assert_eq!(extension_to_language("js"), "javascript");
}

#[test]
fn extension_mapping_passthrough() {
    assert_eq!(extension_to_language("custom"), "custom");
}

#[test]
fn known_code_extension_true() {
    assert!(is_known_code_extension("rs"));
    assert!(is_known_code_extension("py"));
    assert!(is_known_code_extension("cpp"));
    assert!(is_known_code_extension("yaml"));
}

#[test]
fn known_code_extension_false() {
    assert!(!is_known_code_extension("md"));
    assert!(!is_known_code_extension("csv"));
    assert!(!is_known_code_extension("json"));
    assert!(!is_known_code_extension("mmd"));
    assert!(!is_known_code_extension("png"));
}

#[test]
fn parse_code_basic() {
    let v = parse_code_to_fenced_ast("print('hello')\n", "py");
    assert_eq!(text(member(&v, "t")), "fenced");
    assert_eq!(text(member(&v, "name")), "python");
    assert_eq!(text(member(&v, "raw")), "print('hello')");
}

#[test]
fn parse_code_trims_trailing_whitespace() {
    let v = parse_code_to_fenced_ast("fn main() {}\n\n\n", "rs");
    assert_eq!(text(member(&v, "raw")), "fn main() {}");
}
