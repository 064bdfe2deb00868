//! Source-code files as `fenced` AST nodes.
use vstd::prelude::*;
use crate::json_value::{Json, JsonV, group_json_view, push_member, view_members};
use crate::text::{own, str_eq, str_chars, trim_end, trim_end_len, string_of_range};

verus! {

/// The canonical language name of the file extension `ext` (the extension
/// itself when it is not one of the recognised ones).
pub open spec fn language_of(ext: Seq<char>) -> Seq<char> {
    if ext == "rs"@ {
        "rust"@
    } else if ext == "py"@ {
        "python"@
    } else if ext == "js"@ {
        "javascript"@
    } else if ext == "ts"@ {
        "typescript"@
    } else if ext == "jsx"@ {
        "jsx"@
    } else if ext == "tsx"@ {
        "tsx"@
    } else if ext == "c"@ {
        "c"@
    } else if ext == "cpp"@ {
        "cpp"@
    } else if ext == "cc"@ {
        "cpp"@
    } else if ext == "cxx"@ {
        "cpp"@
    } else if ext == "hpp"@ {
        "cpp"@
    } else if ext == "h"@ {
        "c"@
    } else if ext == "cs"@ {
        "csharp"@
    } else if ext == "java"@ {
        "java"@
    } else if ext == "go"@ {
        "go"@
    } else if ext == "rb"@ {
        "ruby"@
    } else if ext == "php"@ {
        "php"@
    } else if ext == "swift"@ {
        "swift"@
    } else if ext == "kt"@ {
        "kotlin"@
    } else if ext == "kts"@ {
        "kotlin"@
    } else if ext == "scala"@ {
        "scala"@
    } else if ext == "sh"@ {
        "bash"@
    } else if ext == "bash"@ {
        "bash"@
    } else if ext == "zsh"@ {
        "zsh"@
    } else if ext == "sql"@ {
        "sql"@
    } else if ext == "r"@ {
        "r"@
    } else if ext == "lua"@ {
        "lua"@
    } else if ext == "yaml"@ {
        "yaml"@
    } else if ext == "yml"@ {
        "yaml"@
    } else if ext == "toml"@ {
        "toml"@
    } else if ext == "xml"@ {
        "xml"@
    } else if ext == "html"@ {
        "html"@
    } else if ext == "htm"@ {
        "html"@
    } else if ext == "css"@ {
        "css"@
    } else if ext == "scss"@ {
        "scss"@
    } else if ext == "sass"@ {
        "sass"@
    } else if ext == "dockerfile"@ {
        "dockerfile"@
    } else if ext == "makefile"@ {
        "makefile"@
    } else if ext == "zig"@ {
        "zig"@
    } else if ext == "nim"@ {
        "nim"@
    } else if ext == "dart"@ {
        "dart"@
    } else if ext == "v"@ {
        "v"@
    } else if ext == "tf"@ {
        "hcl"@
    } else if ext == "hcl"@ {
        "hcl"@
    } else if ext == "proto"@ {
        "protobuf"@
    } else if ext == "graphql"@ {
        "graphql"@
    } else if ext == "gql"@ {
        "graphql"@
    } else {
        ext
    }
}

/// Maps a file extension to its canonical language name for syntax highlighting.
pub fn extension_to_language<'a>(ext: &'a str) -> (r: &'a str)
    ensures
        r@ == language_of(ext@),
{
    if str_eq(ext, "rs") {
        "rust"
    } else if str_eq(ext, "py") {
        "python"
    } else if str_eq(ext, "js") {
        "javascript"
    } else if str_eq(ext, "ts") {
        "typescript"
    } else if str_eq(ext, "jsx") {
        "jsx"
    } else if str_eq(ext, "tsx") {
        "tsx"
    } else if str_eq(ext, "c") {
        "c"
    } else if str_eq(ext, "cpp") {
        "cpp"
    } else if str_eq(ext, "cc") {
        "cpp"
    } else if str_eq(ext, "cxx") {
        "cpp"
    } else if str_eq(ext, "hpp") {
        "cpp"
    } else if str_eq(ext, "h") {
        "c"
    } else if str_eq(ext, "cs") {
        "csharp"
    } else if str_eq(ext, "java") {
        "java"
    } else if str_eq(ext, "go") {
        "go"
    } else if str_eq(ext, "rb") {
        "ruby"
    } else if str_eq(ext, "php") {
        "php"
    } else if str_eq(ext, "swift") {
        "swift"
    } else if str_eq(ext, "kt") {
        "kotlin"
    } else if str_eq(ext, "kts") {
        "kotlin"
    } else if str_eq(ext, "scala") {
        "scala"
    } else if str_eq(ext, "sh") {
        "bash"
    } else if str_eq(ext, "bash") {
        "bash"
    } else if str_eq(ext, "zsh") {
        "zsh"
    } else if str_eq(ext, "sql") {
        "sql"
    } else if str_eq(ext, "r") {
        "r"
    } else if str_eq(ext, "lua") {
        "lua"
    } else if str_eq(ext, "yaml") {
        "yaml"
    } else if str_eq(ext, "yml") {
        "yaml"
    } else if str_eq(ext, "toml") {
        "toml"
    } else if str_eq(ext, "xml") {
        "xml"
    } else if str_eq(ext, "html") {
        "html"
    } else if str_eq(ext, "htm") {
        "html"
    } else if str_eq(ext, "css") {
        "css"
    } else if str_eq(ext, "scss") {
        "scss"
    } else if str_eq(ext, "sass") {
        "sass"
    } else if str_eq(ext, "dockerfile") {
        "dockerfile"
    } else if str_eq(ext, "makefile") {
        "makefile"
    } else if str_eq(ext, "zig") {
        "zig"
    } else if str_eq(ext, "nim") {
        "nim"
    } else if str_eq(ext, "dart") {
        "dart"
    } else if str_eq(ext, "v") {
        "v"
    } else if str_eq(ext, "tf") {
        "hcl"
    } else if str_eq(ext, "hcl") {
        "hcl"
    } else if str_eq(ext, "proto") {
        "protobuf"
    } else if str_eq(ext, "graphql") {
        "graphql"
    } else if str_eq(ext, "gql") {
        "graphql"
    } else {
        ext
    }
}

/// Whether `ext` is one of the recognised source-code extensions.
pub open spec fn known_code_ext(ext: Seq<char>) -> bool {
    ext == "rs"@
        || ext == "py"@
        || ext == "js"@
        || ext == "ts"@
        || ext == "jsx"@
        || ext == "tsx"@
        || ext == "c"@
        || ext == "cpp"@
        || ext == "cc"@
        || ext == "cxx"@
        || ext == "h"@
        || ext == "hpp"@
        || ext == "cs"@
        || ext == "java"@
        || ext == "go"@
        || ext == "rb"@
        || ext == "php"@
        || ext == "swift"@
        || ext == "kt"@
        || ext == "kts"@
        || ext == "scala"@
        || ext == "sh"@
        || ext == "bash"@
        || ext == "zsh"@
        || ext == "sql"@
        || ext == "r"@
        || ext == "lua"@
        || ext == "yaml"@
        || ext == "yml"@
        || ext == "toml"@
        || ext == "xml"@
        || ext == "html"@
        || ext == "htm"@
        || ext == "css"@
        || ext == "scss"@
        || ext == "sass"@
        || ext == "dockerfile"@
        || ext == "makefile"@
        || ext == "zig"@
        || ext == "nim"@
        || ext == "dart"@
        || ext == "v"@
        || ext == "tf"@
        || ext == "hcl"@
        || ext == "proto"@
        || ext == "graphql"@
        || ext == "gql"@
}

/// Returns `true` when the extension is recognised as a source-code file.
pub fn is_known_code_extension(ext: &str) -> (r: bool)
    ensures
        r == known_code_ext(ext@),
{
    str_eq(ext, "rs")
        || str_eq(ext, "py")
        || str_eq(ext, "js")
        || str_eq(ext, "ts")
        || str_eq(ext, "jsx")
        || str_eq(ext, "tsx")
        || str_eq(ext, "c")
        || str_eq(ext, "cpp")
        || str_eq(ext, "cc")
        || str_eq(ext, "cxx")
        || str_eq(ext, "h")
        || str_eq(ext, "hpp")
        || str_eq(ext, "cs")
        || str_eq(ext, "java")
        || str_eq(ext, "go")
        || str_eq(ext, "rb")
        || str_eq(ext, "php")
        || str_eq(ext, "swift")
        || str_eq(ext, "kt")
        || str_eq(ext, "kts")
        || str_eq(ext, "scala")
        || str_eq(ext, "sh")
        || str_eq(ext, "bash")
        || str_eq(ext, "zsh")
        || str_eq(ext, "sql")
        || str_eq(ext, "r")
        || str_eq(ext, "lua")
        || str_eq(ext, "yaml")
        || str_eq(ext, "yml")
        || str_eq(ext, "toml")
        || str_eq(ext, "xml")
        || str_eq(ext, "html")
        || str_eq(ext, "htm")
        || str_eq(ext, "css")
        || str_eq(ext, "scss")
        || str_eq(ext, "sass")
        || str_eq(ext, "dockerfile")
        || str_eq(ext, "makefile")
        || str_eq(ext, "zig")
        || str_eq(ext, "nim")
        || str_eq(ext, "dart")
        || str_eq(ext, "v")
        || str_eq(ext, "tf")
        || str_eq(ext, "hcl")
        || str_eq(ext, "proto")
        || str_eq(ext, "graphql")
        || str_eq(ext, "gql")
}

/// The `fenced` node that shows `raw` as a block named `name`:
/// `{"t": "fenced", "name": name, "attrs": {}, "raw": raw}`.
pub open spec fn fenced_node(name: Seq<char>, raw: Seq<char>) -> JsonV {
    JsonV::Object(
        seq![
            ("t"@, JsonV::Str("fenced"@)),
            ("name"@, JsonV::Str(name)),
            ("attrs"@, JsonV::Object(Seq::empty())),
            ("raw"@, JsonV::Str(raw)),
        ],
    )
}

/// Parses a code string into a `fenced` AST node named after the language of
/// `extension`, with the trailing whitespace of `content` removed.
pub fn parse_code_to_fenced_ast(content: &str, extension: &str) -> (r: Json)
    ensures
        r@ == fenced_node(language_of(extension@), trim_end(content@)),
{
    let language = extension_to_language(extension);
    let chars = str_chars(content);
    let n = trim_end_len(&chars, chars.len());
    let raw = string_of_range(&chars, 0, n);
    proof {
        assert(chars@.subrange(0, chars@.len() as int) =~= chars@);
    }
    fenced(own(language), raw, Vec::new())
}

/// `{"t": "fenced", "name": name, "attrs": attrs, "raw": raw}`.
pub fn fenced(name: String, raw: String, attrs: Vec<(String, Json)>) -> (r: Json)
    ensures
        r@ == JsonV::Object(
            seq![
                ("t"@, JsonV::Str("fenced"@)),
                ("name"@, JsonV::Str(name@)),
                ("attrs"@, Json::Object(attrs)@),
                ("raw"@, JsonV::Str(raw@)),
            ],
        ),
{
    broadcast use group_json_view;

    let mut m: Vec<(String, Json)> = Vec::new();
    assert(view_members(m@) =~= Seq::empty());
    push_member(&mut m, "t", Json::Str(own("fenced")));
    push_member(&mut m, "name", Json::Str(name));
    push_member(&mut m, "attrs", Json::Object(attrs));
    push_member(&mut m, "raw", Json::Str(raw));
    assert(view_members(m@) =~= seq![
                ("t"@, JsonV::Str("fenced"@)),
                ("name"@, JsonV::Str(name@)),
                ("attrs"@, Json::Object(attrs)@),
                ("raw"@, JsonV::Str(raw@)),
            ]);
    Json::Object(m)
}

/// An extension that is not a known code extension names its own language:
/// it passes through unchanged.
pub proof fn lemma_unknown_extension_passes_through(ext: Seq<char>)
    requires
        !known_code_ext(ext),
    ensures
        language_of(ext) == ext,
{
}

/// The language table: each recognised extension and the language that
/// names its fenced node (`ts` is TypeScript, `h` is C, `kt` is Kotlin,
/// `yml` is YAML, `proto` is Protocol Buffers, and so on).
pub proof fn lemma_language_table()
    ensures
        language_of("rs"@) == "rust"@,
        language_of("py"@) == "python"@,
        language_of("js"@) == "javascript"@,
        language_of("ts"@) == "typescript"@,
        language_of("jsx"@) == "jsx"@,
        language_of("tsx"@) == "tsx"@,
        language_of("c"@) == "c"@,
        language_of("cpp"@) == "cpp"@,
        language_of("cc"@) == "cpp"@,
        language_of("cxx"@) == "cpp"@,
        language_of("hpp"@) == "cpp"@,
        language_of("h"@) == "c"@,
        language_of("cs"@) == "csharp"@,
        language_of("java"@) == "java"@,
        language_of("go"@) == "go"@,
        language_of("rb"@) == "ruby"@,
        language_of("php"@) == "php"@,
        language_of("swift"@) == "swift"@,
        language_of("kt"@) == "kotlin"@,
        language_of("kts"@) == "kotlin"@,
        language_of("scala"@) == "scala"@,
        language_of("sh"@) == "bash"@,
        language_of("bash"@) == "bash"@,
        language_of("zsh"@) == "zsh"@,
        language_of("sql"@) == "sql"@,
        language_of("r"@) == "r"@,
        language_of("lua"@) == "lua"@,
        language_of("yaml"@) == "yaml"@,
        language_of("yml"@) == "yaml"@,
        language_of("toml"@) == "toml"@,
        language_of("xml"@) == "xml"@,
        language_of("html"@) == "html"@,
        language_of("htm"@) == "html"@,
        language_of("css"@) == "css"@,
        language_of("scss"@) == "scss"@,
        language_of("sass"@) == "sass"@,
        language_of("dockerfile"@) == "dockerfile"@,
        language_of("makefile"@) == "makefile"@,
        language_of("zig"@) == "zig"@,
        language_of("nim"@) == "nim"@,
        language_of("dart"@) == "dart"@,
        language_of("v"@) == "v"@,
        language_of("tf"@) == "hcl"@,
        language_of("hcl"@) == "hcl"@,
        language_of("proto"@) == "protobuf"@,
        language_of("graphql"@) == "graphql"@,
        language_of("gql"@) == "graphql"@,
{
    reveal_strlit("rs");
    assert("rs"@ =~= seq!['r', 's']);
    reveal_strlit("py");
    assert("py"@ =~= seq!['p', 'y']);
    reveal_strlit("js");
    assert("js"@ =~= seq!['j', 's']);
    reveal_strlit("ts");
    assert("ts"@ =~= seq!['t', 's']);
    reveal_strlit("jsx");
    assert("jsx"@ =~= seq!['j', 's', 'x']);
    reveal_strlit("tsx");
    assert("tsx"@ =~= seq!['t', 's', 'x']);
    reveal_strlit("c");
    assert("c"@ =~= seq!['c']);
    reveal_strlit("cpp");
    assert("cpp"@ =~= seq!['c', 'p', 'p']);
    reveal_strlit("cc");
    assert("cc"@ =~= seq!['c', 'c']);
    reveal_strlit("cxx");
    assert("cxx"@ =~= seq!['c', 'x', 'x']);
    reveal_strlit("hpp");
    assert("hpp"@ =~= seq!['h', 'p', 'p']);
    reveal_strlit("h");
    assert("h"@ =~= seq!['h']);
    reveal_strlit("cs");
    assert("cs"@ =~= seq!['c', 's']);
    reveal_strlit("java");
    assert("java"@ =~= seq!['j', 'a', 'v', 'a']);
    reveal_strlit("go");
    assert("go"@ =~= seq!['g', 'o']);
    reveal_strlit("rb");
    assert("rb"@ =~= seq!['r', 'b']);
    reveal_strlit("php");
    assert("php"@ =~= seq!['p', 'h', 'p']);
    reveal_strlit("swift");
    assert("swift"@ =~= seq!['s', 'w', 'i', 'f', 't']);
    reveal_strlit("kt");
    assert("kt"@ =~= seq!['k', 't']);
    reveal_strlit("kts");
    assert("kts"@ =~= seq!['k', 't', 's']);
    reveal_strlit("scala");
    assert("scala"@ =~= seq!['s', 'c', 'a', 'l', 'a']);
    reveal_strlit("sh");
    assert("sh"@ =~= seq!['s', 'h']);
    reveal_strlit("bash");
    assert("bash"@ =~= seq!['b', 'a', 's', 'h']);
    reveal_strlit("zsh");
    assert("zsh"@ =~= seq!['z', 's', 'h']);
    reveal_strlit("sql");
    assert("sql"@ =~= seq!['s', 'q', 'l']);
    reveal_strlit("r");
    assert("r"@ =~= seq!['r']);
    reveal_strlit("lua");
    assert("lua"@ =~= seq!['l', 'u', 'a']);
    reveal_strlit("yaml");
    assert("yaml"@ =~= seq!['y', 'a', 'm', 'l']);
    reveal_strlit("yml");
    assert("yml"@ =~= seq!['y', 'm', 'l']);
    reveal_strlit("toml");
    assert("toml"@ =~= seq!['t', 'o', 'm', 'l']);
    reveal_strlit("xml");
    assert("xml"@ =~= seq!['x', 'm', 'l']);
    reveal_strlit("html");
    assert("html"@ =~= seq!['h', 't', 'm', 'l']);
    reveal_strlit("htm");
    assert("htm"@ =~= seq!['h', 't', 'm']);
    reveal_strlit("css");
    assert("css"@ =~= seq!['c', 's', 's']);
    reveal_strlit("scss");
    assert("scss"@ =~= seq!['s', 'c', 's', 's']);
    reveal_strlit("sass");
    assert("sass"@ =~= seq!['s', 'a', 's', 's']);
    reveal_strlit("dockerfile");
    assert("dockerfile"@ =~= seq!['d', 'o', 'c', 'k', 'e', 'r', 'f', 'i', 'l', 'e']);
    reveal_strlit("makefile");
    assert("makefile"@ =~= seq!['m', 'a', 'k', 'e', 'f', 'i', 'l', 'e']);
    reveal_strlit("zig");
    assert("zig"@ =~= seq!['z', 'i', 'g']);
    reveal_strlit("nim");
    assert("nim"@ =~= seq!['n', 'i', 'm']);
    reveal_strlit("dart");
    assert("dart"@ =~= seq!['d', 'a', 'r', 't']);
    reveal_strlit("v");
    assert("v"@ =~= seq!['v']);
    reveal_strlit("tf");
    assert("tf"@ =~= seq!['t', 'f']);
    reveal_strlit("hcl");
    assert("hcl"@ =~= seq!['h', 'c', 'l']);
    reveal_strlit("proto");
    assert("proto"@ =~= seq!['p', 'r', 'o', 't', 'o']);
    reveal_strlit("graphql");
    assert("graphql"@ =~= seq!['g', 'r', 'a', 'p', 'h', 'q', 'l']);
    reveal_strlit("gql");
    assert("gql"@ =~= seq!['g', 'q', 'l']);
}

/// The recognised source-code extensions: every extension of the language
/// table, and not the data and document files that have their own readers
/// (`md`, `txt`, `json`, `csv`, `mmd`) nor an empty extension.
pub proof fn lemma_known_extensions()
    ensures
        known_code_ext("rs"@),
        known_code_ext("py"@),
        known_code_ext("js"@),
        known_code_ext("ts"@),
        known_code_ext("jsx"@),
        known_code_ext("tsx"@),
        known_code_ext("c"@),
        known_code_ext("cpp"@),
        known_code_ext("cc"@),
        known_code_ext("cxx"@),
        known_code_ext("h"@),
        known_code_ext("hpp"@),
        known_code_ext("cs"@),
        known_code_ext("java"@),
        known_code_ext("go"@),
        known_code_ext("rb"@),
        known_code_ext("php"@),
        known_code_ext("swift"@),
        known_code_ext("kt"@),
        known_code_ext("kts"@),
        known_code_ext("scala"@),
        known_code_ext("sh"@),
        known_code_ext("bash"@),
        known_code_ext("zsh"@),
        known_code_ext("sql"@),
        known_code_ext("r"@),
        known_code_ext("lua"@),
        known_code_ext("yaml"@),
        known_code_ext("yml"@),
        known_code_ext("toml"@),
        known_code_ext("xml"@),
        known_code_ext("html"@),
        known_code_ext("htm"@),
        known_code_ext("css"@),
        known_code_ext("scss"@),
        known_code_ext("sass"@),
        known_code_ext("dockerfile"@),
        known_code_ext("makefile"@),
        known_code_ext("zig"@),
        known_code_ext("nim"@),
        known_code_ext("dart"@),
        known_code_ext("v"@),
        known_code_ext("tf"@),
        known_code_ext("hcl"@),
        known_code_ext("proto"@),
        known_code_ext("graphql"@),
        known_code_ext("gql"@),
        !known_code_ext("md"@),
        !known_code_ext("txt"@),
        !known_code_ext("json"@),
        !known_code_ext("csv"@),
        !known_code_ext("mmd"@),
        !known_code_ext(""@),
{
    reveal_strlit("rs");
    assert("rs"@ =~= seq!['r', 's']);
    reveal_strlit("py");
    assert("py"@ =~= seq!['p', 'y']);
    reveal_strlit("js");
    assert("js"@ =~= seq!['j', 's']);
    reveal_strlit("ts");
    assert("ts"@ =~= seq!['t', 's']);
    reveal_strlit("jsx");
    assert("jsx"@ =~= seq!['j', 's', 'x']);
    reveal_strlit("tsx");
    assert("tsx"@ =~= seq!['t', 's', 'x']);
    reveal_strlit("c");
    assert("c"@ =~= seq!['c']);
    reveal_strlit("cpp");
    assert("cpp"@ =~= seq!['c', 'p', 'p']);
    reveal_strlit("cc");
    assert("cc"@ =~= seq!['c', 'c']);
    reveal_strlit("cxx");
    assert("cxx"@ =~= seq!['c', 'x', 'x']);
    reveal_strlit("h");
    assert("h"@ =~= seq!['h']);
    reveal_strlit("hpp");
    assert("hpp"@ =~= seq!['h', 'p', 'p']);
    reveal_strlit("cs");
    assert("cs"@ =~= seq!['c', 's']);
    reveal_strlit("java");
    assert("java"@ =~= seq!['j', 'a', 'v', 'a']);
    reveal_strlit("go");
    assert("go"@ =~= seq!['g', 'o']);
    reveal_strlit("rb");
    assert("rb"@ =~= seq!['r', 'b']);
    reveal_strlit("php");
    assert("php"@ =~= seq!['p', 'h', 'p']);
    reveal_strlit("swift");
    assert("swift"@ =~= seq!['s', 'w', 'i', 'f', 't']);
    reveal_strlit("kt");
    assert("kt"@ =~= seq!['k', 't']);
    reveal_strlit("kts");
    assert("kts"@ =~= seq!['k', 't', 's']);
    reveal_strlit("scala");
    assert("scala"@ =~= seq!['s', 'c', 'a', 'l', 'a']);
    reveal_strlit("sh");
    assert("sh"@ =~= seq!['s', 'h']);
    reveal_strlit("bash");
    assert("bash"@ =~= seq!['b', 'a', 's', 'h']);
    reveal_strlit("zsh");
    assert("zsh"@ =~= seq!['z', 's', 'h']);
    reveal_strlit("sql");
    assert("sql"@ =~= seq!['s', 'q', 'l']);
    reveal_strlit("r");
    assert("r"@ =~= seq!['r']);
    reveal_strlit("lua");
    assert("lua"@ =~= seq!['l', 'u', 'a']);
    reveal_strlit("yaml");
    assert("yaml"@ =~= seq!['y', 'a', 'm', 'l']);
    reveal_strlit("yml");
    assert("yml"@ =~= seq!['y', 'm', 'l']);
    reveal_strlit("toml");
    assert("toml"@ =~= seq!['t', 'o', 'm', 'l']);
    reveal_strlit("xml");
    assert("xml"@ =~= seq!['x', 'm', 'l']);
    reveal_strlit("html");
    assert("html"@ =~= seq!['h', 't', 'm', 'l']);
    reveal_strlit("htm");
    assert("htm"@ =~= seq!['h', 't', 'm']);
    reveal_strlit("css");
    assert("css"@ =~= seq!['c', 's', 's']);
    reveal_strlit("scss");
    assert("scss"@ =~= seq!['s', 'c', 's', 's']);
    reveal_strlit("sass");
    assert("sass"@ =~= seq!['s', 'a', 's', 's']);
    reveal_strlit("dockerfile");
    assert("dockerfile"@ =~= seq!['d', 'o', 'c', 'k', 'e', 'r', 'f', 'i', 'l', 'e']);
    reveal_strlit("makefile");
    assert("makefile"@ =~= seq!['m', 'a', 'k', 'e', 'f', 'i', 'l', 'e']);
    reveal_strlit("zig");
    assert("zig"@ =~= seq!['z', 'i', 'g']);
    reveal_strlit("nim");
    assert("nim"@ =~= seq!['n', 'i', 'm']);
    reveal_strlit("dart");
    assert("dart"@ =~= seq!['d', 'a', 'r', 't']);
    reveal_strlit("v");
    assert("v"@ =~= seq!['v']);
    reveal_strlit("tf");
    assert("tf"@ =~= seq!['t', 'f']);
    reveal_strlit("hcl");
    assert("hcl"@ =~= seq!['h', 'c', 'l']);
    reveal_strlit("proto");
    assert("proto"@ =~= seq!['p', 'r', 'o', 't', 'o']);
    reveal_strlit("graphql");
    assert("graphql"@ =~= seq!['g', 'r', 'a', 'p', 'h', 'q', 'l']);
    reveal_strlit("gql");
    assert("gql"@ =~= seq!['g', 'q', 'l']);
    reveal_strlit("md");
    assert("md"@ =~= seq!['m', 'd']);
    reveal_strlit("txt");
    assert("txt"@ =~= seq!['t', 'x', 't']);
    reveal_strlit("json");
    assert("json"@ =~= seq!['j', 's', 'o', 'n']);
    reveal_strlit("csv");
    assert("csv"@ =~= seq!['c', 's', 'v']);
    reveal_strlit("mmd");
    assert("mmd"@ =~= seq!['m', 'm', 'd']);
    reveal_strlit("");
    assert(""@ =~= Seq::<char>::empty());
}

} // verus!
