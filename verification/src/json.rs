//! The wire format of a compiled document (the site asset), and the JSON
//! helpers around it.
use vstd::prelude::*;
use crate::ast_spec::{digits_value, number_as_u64};
use crate::ast::number_text_as_u64;
use crate::code::fenced;
use crate::csv::{text_node, text_node_spec};
use crate::json_value::{
    json_get, members_lookup, lemma_view_items, lemma_view_members, members_get, push_item, push_member, view_items,
    view_members, Json, JsonV,
};
use crate::text::{decimal, decimal_string, own, str_chars, trim, trim_range};
use crate::CompileError;
use serde_json::Value;

verus! {

/// The version of the AST schema that an asset follows.
#[derive(Clone, Copy, Debug, PartialEq, Eq, Structural)]
pub struct SchemaVersion {
    pub major: u32,
    pub minor: u32,
}

/// A compiled document: schema version, frontmatter metadata, and AST.
#[derive(Debug, PartialEq)]
pub struct SiteAsset {
    /// Schema version, so that renderers can detect incompatible AST shapes.
    pub schema: SchemaVersion,
    /// Frontmatter metadata; `None` when the document has none.
    pub meta: Option<Json>,
    /// The AST: an array of block nodes.
    pub ast: Vec<Json>,
}

/// The schema version that this crate writes.
pub open spec fn current_schema() -> SchemaVersion {
    SchemaVersion { major: 1, minor: 2 }
}

impl SiteAsset {
    /// Major version of the wire-format schema.
    pub const SCHEMA_MAJOR: u32 = 1;

    /// Minor version of the wire-format schema.
    pub const SCHEMA_MINOR: u32 = 2;

    /// Builds a site asset of the current schema version from optional
    /// frontmatter metadata and AST blocks.
    pub fn new(meta: Option<Json>, ast: Vec<Json>) -> (r: SiteAsset)
        ensures
            r.schema == current_schema(),
            r.meta == meta,
            r.ast == ast,
    {
        SiteAsset {
            schema: SchemaVersion { major: Self::SCHEMA_MAJOR, minor: Self::SCHEMA_MINOR },
            meta,
            ast,
        }
    }
}

/// The JSON value that `serde_json` reads from `text`, or its error message.
pub uninterp spec fn json_parse(text: Seq<char>) -> Result<JsonV, Seq<char>>;

/// The compact JSON text that `serde_json` writes for `v`.
pub uninterp spec fn json_compact(v: JsonV) -> Seq<char>;

/// The pretty-printed JSON text that `serde_json` writes for `v`.
pub uninterp spec fn json_pretty(v: JsonV) -> Seq<char>;

/// The JSON value that `serde_yml` reads from the YAML `text`; `None` when
/// the read fails.
pub uninterp spec fn yaml_parse(text: Seq<char>) -> Option<JsonV>;

#[verifier::external_type_specification]
#[verifier::external_body]
pub struct ExValue(serde_json::Value);

/// `v` as a [`Json`], one value for one.
#[verifier::external_body]
fn json_of_value(v: Value) -> Json {
    match v {
        Value::Null => Json::Null,
        Value::Bool(b) => Json::Bool(b),
        Value::Number(n) => Json::Number(n.to_string()),
        Value::String(s) => Json::Str(s),
        Value::Array(a) => Json::Array(a.into_iter().map(json_of_value).collect()),
        Value::Object(m) => Json::Object(m.into_iter().map(|(k, x)| (k, json_of_value(x))).collect()),
    }
}

/// `j` as a `serde_json::Value`, one value for one (a number's text that
/// is no JSON number stays a string).
#[verifier::external_body]
fn value_of_json(j: &Json) -> Value {
    match j {
        Json::Null => Value::Null,
        Json::Bool(b) => Value::Bool(*b),
        Json::Number(t) | Json::Float(t) => t.parse::<serde_json::Number>().map_or_else(|_| Value::String(t.clone()), Value::Number),
        Json::Str(s) => Value::String(s.clone()),
        Json::Array(a) => Value::Array(a.iter().map(value_of_json).collect()),
        Json::Object(m) => Value::Object(m.iter().map(|(k, x)| (k.clone(), value_of_json(x))).collect()),
    }
}

/// Reads `text` with `serde_json::from_str` into a JSON value; the result,
/// or the error's message, is named: it depends on the text alone.
#[verifier::external_body]
fn parse_json_text(text: &str) -> (r: Result<Json, String>)
    ensures
        match r {
            Ok(j) => json_parse(text@) == Ok::<JsonV, Seq<char>>(j@),
            Err(e) => json_parse(text@) == Err::<JsonV, Seq<char>>(e@),
        },
{
    match serde_json::from_str::<Value>(text) {
        Ok(v) => Ok(json_of_value(v)),
        Err(e) => Err(e.to_string()),
    }
}

/// Reads `text` as JSON (`serde_json::from_str`): the value, or the
/// reader's error message.
pub fn parse_json(text: &str) -> (r: Result<Json, String>)
    ensures
        match r {
            Ok(j) => json_parse(text@) == Ok::<JsonV, Seq<char>>(j@),
            Err(e) => json_parse(text@) == Err::<JsonV, Seq<char>>(e@),
        },
{
    parse_json_text(text)
}

/// Writes `v` as compact JSON text (`Value`'s `to_string`); the text is named.
#[verifier::external_body]
fn compact_json_text(v: &Json) -> (r: String)
    ensures
        r@ == json_compact(v@),
{
    value_of_json(v).to_string()
}

/// Writes `v` as pretty-printed JSON text (`serde_json::to_string_pretty`,
/// or an empty string should it fail); the text is named.
#[verifier::external_body]
fn pretty_json_text(v: &Json) -> (r: String)
    ensures
        r@ == json_pretty(v@),
{
    serde_json::to_string_pretty(&value_of_json(v)).unwrap_or_default()
}

/// Reads the YAML `text` with `serde_yml::from_str` into a JSON value; the
/// result, or the error's message, is named: it depends on the text alone.
/// The contract speaks of a normal return only: the source of the reader
/// that `serde_yml` forwards to (noyalib) does not show that no text makes
/// it panic, so no such promise is made here. Of a failed read only the
/// failure is stated: the reader keeps span and anchor state per thread, so
/// its error text is not shown to depend on the text alone.
#[verifier::external_body]
fn parse_yaml_text(text: &str) -> (r: Result<Json, String>)
    ensures
        match r {
            Ok(j) => yaml_parse(text@) == Some(j@),
            Err(_) => yaml_parse(text@) is None,
        },
{
    match serde_yml::from_str::<Value>(text) {
        Ok(v) => Ok(json_of_value(v)),
        Err(e) => Err(e.to_string()),
    }
}

/// Reads frontmatter text as YAML with `serde_yml`: `Ok(None)` when there
/// is none or it is blank, else the YAML value, or an `InvalidFrontmatter`
/// error with the YAML reader's message.
pub fn parse_frontmatter(raw: Option<&str>) -> (r: Result<Option<Json>, CompileError>)
    ensures
        match raw {
            None => r matches Ok(None),
            Some(s) => if trim(s@).len() == 0 {
                r matches Ok(None)
            } else {
                match yaml_parse(trim(s@)) {
                    Some(v) => r matches Ok(Some(x)) && x@ == v,
                    None => r matches Err(CompileError::InvalidFrontmatter(_)),
                }
            },
        },
{
    match raw {
        None => Ok(None),
        Some(s) => {
            let c = str_chars(s);
            let (a, b) = trim_range(c.as_slice(), 0, c.len());
            assert(c@.subrange(0, c@.len() as int) =~= s@);
            if a == b {
                return Ok(None);
            }
            let yaml = s.substring_char(a, b);
            match parse_yaml_text(yaml) {
                Ok(v) => Ok(Some(v)),
                Err(e) => Err(CompileError::InvalidFrontmatter(e)),
            }
        },
    }
}

/// A `u64` read from an optional JSON value (`as_u64`, else 0).
pub open spec fn u64_or_zero(v: Option<JsonV>) -> u64 {
    match v {
        Some(JsonV::Number(t)) => match number_as_u64(t) {
            Some(n) => n,
            None => 0,
        },
        _ => 0,
    }
}

/// The message for a schema of the major version `major`.
pub open spec fn major_message(major: u64) -> Seq<char> {
    "unexpected schema major version: "@ + decimal(major as nat) + " (expected "@ + decimal(1) + ")"@
}

/// The problems of a site asset's JSON tree: a non-object top level, a
/// missing or non-object `schema` or one of another major version, a `meta`
/// that is neither an object nor null, and a missing or non-array `ast`.
pub open spec fn asset_errors(v: JsonV) -> Seq<Seq<char>> {
    match v {
        JsonV::Object(m) => {
            let e1: Seq<Seq<char>> = match members_get(m, "schema"@) {
                Some(JsonV::Object(sv)) => {
                    let major = u64_or_zero(members_get(sv, "major"@));
                    if major != 1 {
                        seq![major_message(major)]
                    } else {
                        Seq::empty()
                    }
                },
                _ => seq!["missing or invalid 'schema' field (must be an object with major/minor)"@],
            };
            let e2: Seq<Seq<char>> = match members_get(m, "meta"@) {
                Some(x) => if x is Object || x is Null {
                    Seq::empty()
                } else {
                    seq!["'meta' must be an object or null"@]
                },
                None => Seq::empty(),
            };
            let e3: Seq<Seq<char>> = match members_get(m, "ast"@) {
                Some(JsonV::Array(_)) => Seq::empty(),
                _ => seq!["missing or invalid 'ast' field (array)"@],
            };
            e1 + e2 + e3
        },
        _ => seq!["top-level JSON is not an object"@],
    }
}

pub open spec fn strings_of(v: Seq<String>) -> Seq<Seq<char>> {
    v.map_values(|s: String| s@)
}

fn push_string(v: &mut Vec<String>, s: String)
    ensures
        strings_of(final(v)@) == strings_of(old(v)@).push(s@),
{
    let ghost v0 = v@;
    v.push(s);
    assert(strings_of(v@) =~= strings_of(v0).push(s@));
}

/// Checks the wire-format shape of a parsed site asset: `Ok` when it has
/// no problem, else every problem's message, in order.
pub fn validate_asset_json_value(v: &Json) -> (r: Result<(), Vec<String>>)
    ensures
        match r {
            Ok(()) => asset_errors(v@).len() == 0,
            Err(errs) => asset_errors(v@).len() > 0 && strings_of(errs@) == asset_errors(v@),
        },
{
    let mut errs: Vec<String> = Vec::new();
    let m = match v {
        Json::Object(m) => m,
        _ => {
            push_string(&mut errs, own("top-level JSON is not an object"));
            assert(strings_of(errs@) =~= asset_errors(v@));
            return Err(errs);
        },
    };
    assert(strings_of(errs@) =~= Seq::empty());
    match json_get(v, "schema") {
        Some(Json::Object(sv)) => {
            let major: u64 = match members_lookup(sv, "major") {
                Some(Json::Number(t)) => match number_text_as_u64(t.as_str()) {
                    Some(n) => n,
                    None => 0,
                },
                _ => 0,
            };
            if major != 1 {
                let mut msg = own("unexpected schema major version: ");
                msg.append(decimal_string(major).as_str());
                msg.append(" (expected ");
                msg.append(decimal_string(1).as_str());
                msg.append(")");
                push_string(&mut errs, msg);
            }
        },
        _ => {
            push_string(&mut errs, own("missing or invalid 'schema' field (must be an object with major/minor)"));
        },
    }
    match json_get(v, "meta") {
        Some(x) => {
            match x {
                Json::Object(_) | Json::Null => {},
                _ => {
                    push_string(&mut errs, own("'meta' must be an object or null"));
                },
            }
        },
        None => {},
    }
    match json_get(v, "ast") {
        Some(Json::Array(_)) => {},
        _ => {
            push_string(&mut errs, own("missing or invalid 'ast' field (array)"));
        },
    }
    assert(strings_of(errs@) =~= asset_errors(v@));
    if errs.len() == 0 {
        Ok(())
    } else {
        Err(errs)
    }
}

/// Checks the wire-format shape of a site asset's JSON text: the JSON
/// reader's message (`invalid JSON: ...`) when the text is no JSON, else
/// what [`validate_asset_json_value`] says of its value.
pub fn validate_asset_json_str(s: &str) -> (r: Result<(), Vec<String>>)
    ensures
        match json_parse(s@) {
            Err(e) => r matches Err(errs) && strings_of(errs@) == seq!["invalid JSON: "@ + e],
            Ok(v) => match r {
                Ok(()) => asset_errors(v).len() == 0,
                Err(errs) => asset_errors(v).len() > 0 && strings_of(errs@) == asset_errors(v),
            },
        },
{
    match parse_json_text(s) {
        Ok(v) => validate_asset_json_value(&v),
        Err(e) => {
            let mut msg = own("invalid JSON: ");
            msg.append(e.as_str());
            let mut errs: Vec<String> = Vec::new();
            assert(strings_of(errs@) =~= Seq::empty());
            push_string(&mut errs, msg);
            assert(strings_of(errs@) =~= seq!["invalid JSON: "@ + e@]);
            Err(errs)
        },
    }
}

/// The text of a member value in a data table: a string as it stands,
/// another value as compact JSON, nothing when it is missing.
pub open spec fn value_text(v: Option<JsonV>) -> Seq<char> {
    match v {
        Some(JsonV::Str(s)) => s,
        Some(x) => json_compact(x),
        None => Seq::empty(),
    }
}

/// The keys of an object's members.
pub open spec fn member_keys(m: Seq<(Seq<char>, JsonV)>) -> Seq<Seq<char>> {
    m.map_values(|e: (Seq<char>, JsonV)| e.0)
}

/// The row of the object `o` under the column keys `keys`.
pub open spec fn object_row(o: Seq<(Seq<char>, JsonV)>, keys: Seq<Seq<char>>) -> JsonV {
    JsonV::Array(keys.map_values(|k: Seq<char>| text_node_spec("_cell"@, value_text(members_get(o, k)))))
}

/// The rows of the objects among `items`, in order; other items are skipped.
pub open spec fn object_rows(items: Seq<JsonV>, keys: Seq<Seq<char>>) -> Seq<JsonV>
    decreases items.len(),
{
    if items.len() == 0 {
        Seq::empty()
    } else {
        let prev = object_rows(items.drop_last(), keys);
        match items.last() {
            JsonV::Object(o) => prev.push(object_row(o, keys)),
            _ => prev,
        }
    }
}

/// The table of an array of objects: the first object's keys are the
/// columns.
pub open spec fn objects_table(items: Seq<JsonV>) -> Seq<JsonV> {
    match items[0] {
        JsonV::Object(first) => {
            let keys = member_keys(first);
            seq![
                JsonV::Object(
                    seq![
                        ("t"@, JsonV::Str("table"@)),
                        ("align"@, JsonV::Array(keys.map_values(|k: Seq<char>| JsonV::Str("none"@)))),
                        ("headers"@, JsonV::Array(keys.map_values(|k: Seq<char>| text_node_spec("_cell"@, k)))),
                        ("rows"@, JsonV::Array(object_rows(items, keys))),
                    ],
                ),
            ]
        },
        _ => Seq::empty(),
    }
}

/// The items of an object's definition list: for each member a title with
/// its key and a body with its value's text.
pub open spec fn definition_items(m: Seq<(Seq<char>, JsonV)>) -> Seq<JsonV>
    decreases m.len(),
{
    if m.len() == 0 {
        Seq::empty()
    } else {
        definition_items(m.drop_last()).push(text_node_spec("_def_title"@, m.last().0)).push(
            text_node_spec("_def_body"@, value_text(Some(m.last().1))),
        )
    }
}

/// The AST of a JSON data value: a table for a non-empty array that starts
/// with an object, a definition list for an object, else a fenced `json`
/// block of the pretty-printed value.
pub open spec fn json_data_ast(v: JsonV) -> Seq<JsonV> {
    match v {
        JsonV::Array(items) => if items.len() > 0 && items[0] is Object {
            objects_table(items)
        } else {
            seq![crate::code::fenced_node("json"@, json_pretty(v))]
        },
        JsonV::Object(m) => seq![
            JsonV::Object(
                seq![
                    ("t"@, JsonV::Str("definition_list"@)),
                    ("items"@, JsonV::Array(definition_items(m))),
                ],
            ),
        ],
        _ => seq![crate::code::fenced_node("json"@, json_pretty(v))],
    }
}

/// The text of an optional member value (see [`value_text`]).
fn value_text_exec(v: Option<&Json>) -> (r: String)
    ensures
        r@ == value_text(match v {
            Some(j) => Some(j@),
            None => None,
        }),
{
    match v {
        Some(Json::Str(s)) => own(s.as_str()),
        Some(x) => compact_json_text(x),
        None => String::new(),
    }
}

/// The row of the object members `o` under the column keys `keys`.
fn object_row_exec(o: &Vec<(String, Json)>, keys: &Vec<String>) -> (r: Json)
    ensures
        r@ == object_row(view_members(o@), strings_of(keys@)),
{
    let ghost kv = strings_of(keys@);
    let mut cells: Vec<Json> = Vec::new();
    let mut i: usize = 0;
    while i < keys.len()
        invariant
            i <= keys@.len(),
            kv == strings_of(keys@),
            view_items(cells@) =~= kv.subrange(0, i as int).map_values(
                |k: Seq<char>| text_node_spec("_cell"@, value_text(members_get(view_members(o@), k))),
            ),
        decreases keys.len() - i,
    {
        let found = members_lookup(o, keys[i].as_str());
        let t = value_text_exec(found);
        push_item(&mut cells, text_node("_cell", t.as_str()));
        assert(kv.subrange(0, i + 1) =~= kv.subrange(0, i as int).push(kv[i as int]));
        i = i + 1;
    }
    assert(kv.subrange(0, kv.len() as int) =~= kv);
    Json::Array(cells)
}

/// The table of a non-empty array of objects (none when the first item is
/// not an object).
fn json_array_of_objects_to_table(arr: &Vec<Json>) -> (r: Result<Vec<Json>, String>)
    requires
        arr@.len() > 0,
    ensures
        r matches Ok(v) && view_items(v@) == objects_table(view_items(arr@)),
{
    broadcast use crate::json_value::group_json_view;

    let ghost items = view_items(arr@);
    let first = match &arr[0] {
        Json::Object(m) => m,
        _ => {
            let v: Vec<Json> = Vec::new();
            assert(view_items(v@) =~= Seq::empty());
            return Ok(v);
        },
    };
    let mut keys: Vec<String> = Vec::new();
    let mut headers: Vec<Json> = Vec::new();
    let mut align: Vec<Json> = Vec::new();
    let mut i: usize = 0;
    let ghost fk = member_keys(view_members(first@));
    while i < first.len()
        invariant
            i <= first@.len(),
            fk == member_keys(view_members(first@)),
            fk.len() == first@.len(),
            strings_of(keys@) =~= fk.subrange(0, i as int),
            view_items(headers@) =~= fk.subrange(0, i as int).map_values(|k: Seq<char>| text_node_spec("_cell"@, k)),
            view_items(align@) =~= fk.subrange(0, i as int).map_values(|k: Seq<char>| JsonV::Str("none"@)),
        decreases first.len() - i,
    {
        let k = own(first[i].0.as_str());
        proof {
            lemma_view_members(first@);
        }
        assert(fk[i as int] == first@[i as int].0@);
        push_item(&mut headers, text_node("_cell", k.as_str()));
        push_item(&mut align, Json::Str(own("none")));
        push_string(&mut keys, k);
        assert(fk.subrange(0, i + 1) =~= fk.subrange(0, i as int).push(fk[i as int]));
        i = i + 1;
    }
    assert(fk.subrange(0, fk.len() as int) =~= fk);
    let mut rows: Vec<Json> = Vec::new();
    let mut j: usize = 0;
    assert(items.subrange(0, 0) =~= Seq::<JsonV>::empty());
    while j < arr.len()
        invariant
            j <= arr@.len(),
            items == view_items(arr@),
            items.len() == arr@.len(),
            strings_of(keys@) == fk,
            view_items(rows@) == object_rows(items.subrange(0, j as int), fk),
        decreases arr.len() - j,
    {
        assert(items.subrange(0, j + 1).drop_last() =~= items.subrange(0, j as int));
        proof {
            lemma_view_items(arr@);
        }
        assert(items[j as int] == arr@[j as int]@);
        match &arr[j] {
            Json::Object(o) => {
                let row = object_row_exec(o, &keys);
                push_item(&mut rows, row);
            },
            _ => {},
        }
        j = j + 1;
    }
    assert(items.subrange(0, items.len() as int) =~= items);
    let ghost hv = view_items(headers@);
    let ghost av = view_items(align@);
    let ghost rv = view_items(rows@);
    let mut m: Vec<(String, Json)> = Vec::new();
    assert(view_members(m@) =~= Seq::empty());
    push_member(&mut m, "t", Json::Str(own("table")));
    push_member(&mut m, "align", Json::Array(align));
    push_member(&mut m, "headers", Json::Array(headers));
    push_member(&mut m, "rows", Json::Array(rows));
    let ghost tv = view_members(m@);
    assert(tv =~= seq![
        ("t"@, JsonV::Str("table"@)),
        ("align"@, JsonV::Array(av)),
        ("headers"@, JsonV::Array(hv)),
        ("rows"@, JsonV::Array(rv)),
    ]);
    proof {
        lemma_view_items(arr@);
        assert(items[0] == arr@[0]@);
        assert(arr@[0]@ == JsonV::Object(view_members(first@)));
    }
    let mut out: Vec<Json> = Vec::new();
    assert(view_items(out@) =~= Seq::empty());
    push_item(&mut out, Json::Object(m));
    assert(view_items(out@) =~= seq![JsonV::Object(tv)]);
    assert(view_items(out@) =~= objects_table(items));
    Ok(out)
}

/// The definition list of an object's members.
fn json_object_to_definition_list(obj: &Vec<(String, Json)>) -> (r: Result<Vec<Json>, String>)
    ensures
        r matches Ok(v) && view_items(v@) == seq![
            JsonV::Object(
                seq![
                    ("t"@, JsonV::Str("definition_list"@)),
                    ("items"@, JsonV::Array(definition_items(view_members(obj@)))),
                ],
            ),
        ],
{
    broadcast use crate::json_value::group_json_view;

    let ghost mv = view_members(obj@);
    let mut items: Vec<Json> = Vec::new();
    let mut i: usize = 0;
    assert(mv.subrange(0, 0) =~= Seq::<(Seq<char>, JsonV)>::empty());
    while i < obj.len()
        invariant
            i <= obj@.len(),
            mv == view_members(obj@),
            mv.len() == obj@.len(),
            view_items(items@) == definition_items(mv.subrange(0, i as int)),
        decreases obj.len() - i,
    {
        let t = value_text_exec(Some(&obj[i].1));
        push_item(&mut items, text_node("_def_title", obj[i].0.as_str()));
        push_item(&mut items, text_node("_def_body", t.as_str()));
        assert(mv.subrange(0, i + 1).drop_last() =~= mv.subrange(0, i as int));
        proof {
            lemma_view_members(obj@);
        }
        assert(mv[i as int] == (obj@[i as int].0@, obj@[i as int].1@));
        i = i + 1;
    }
    assert(mv.subrange(0, mv.len() as int) =~= mv);
    let ghost iv = view_items(items@);
    let mut m: Vec<(String, Json)> = Vec::new();
    assert(view_members(m@) =~= Seq::empty());
    push_member(&mut m, "t", Json::Str(own("definition_list")));
    push_member(&mut m, "items", Json::Array(items));
    let ghost tv = view_members(m@);
    assert(tv =~= seq![("t"@, JsonV::Str("definition_list"@)), ("items"@, JsonV::Array(iv))]);
    let mut out: Vec<Json> = Vec::new();
    assert(view_items(out@) =~= Seq::empty());
    push_item(&mut out, Json::Object(m));
    assert(view_items(out@) =~= seq![JsonV::Object(tv)]);
    Ok(out)
}

/// The AST blocks of a JSON data value: a table for a non-empty array that
/// starts with an object, a definition list for an object, else a fenced
/// `json` block of the pretty-printed value.
pub fn json_data_to_ast(parsed: &Json) -> (r: Vec<Json>)
    ensures
        view_items(r@) == json_data_ast(parsed@),
{
    broadcast use crate::json_value::group_json_view;

    match parsed {
        Json::Array(arr) => {
            if arr.len() > 0 {
                if let Json::Object(_) = &arr[0] {
                    return match json_array_of_objects_to_table(arr) {
                        Ok(v) => v,
                        Err(_) => {
                            assert(false);
                            Vec::new()
                        },
                    };
                }
            }
        },
        Json::Object(obj) => {
            return match json_object_to_definition_list(obj) {
                Ok(v) => v,
                Err(_) => {
                    assert(false);
                    Vec::new()
                },
            };
        },
        _ => {},
    }
    let pretty = pretty_json_text(parsed);
    let node = fenced(own("json"), pretty, Vec::new());
    let mut out: Vec<Json> = Vec::new();
    push_item(&mut out, node);
    proof {
        assert(view_members(Seq::<(String, Json)>::empty()) =~= Seq::empty());
    }
    assert(view_items(out@) =~= json_data_ast(parsed@));
    out
}

/// Reads a JSON data text into AST blocks (see [`json_data_to_ast`]); the
/// JSON reader's message when the text is no JSON.
pub fn parse_json_data_to_ast(content: &str) -> (r: Result<Vec<Json>, String>)
    ensures
        match json_parse(content@) {
            Ok(v) => r matches Ok(x) && view_items(x@) == json_data_ast(v),
            Err(e) => r matches Err(m) && m@ == e,
        },
{
    match parse_json_text(content) {
        Ok(v) => Ok(json_data_to_ast(&v)),
        Err(e) => Err(e),
    }
}

/// The JSON tree of a site asset in the wire format: `schema` with its
/// `major` and `minor` numbers, `meta` when there is one, and `ast`.
pub open spec fn asset_tree(schema: SchemaVersion, meta: Option<JsonV>, ast: Seq<JsonV>) -> JsonV {
    JsonV::Object(
        seq![
            (
                "schema"@,
                JsonV::Object(
                    seq![
                        ("major"@, JsonV::Number(decimal(schema.major as nat))),
                        ("minor"@, JsonV::Number(decimal(schema.minor as nat))),
                    ],
                ),
            ),
        ] + match meta {
            Some(m) => seq![("meta"@, m)],
            None => Seq::empty(),
        } + seq![("ast"@, JsonV::Array(ast))],
    )
}

/// An asset of the current schema version whose metadata is an object (or
/// null, or absent) has none of the problems that validation looks for.
pub proof fn lemma_current_asset_is_valid(meta: Option<JsonV>, ast: Seq<JsonV>)
    requires
        meta matches Some(m) ==> (m is Object || m is Null),
    ensures
        asset_errors(asset_tree(current_schema(), meta, ast)).len() == 0,
{
    reveal_strlit("schema");
    reveal_strlit("meta");
    reveal_strlit("ast");
    reveal_strlit("major");
    reveal_strlit("minor");
    let t = asset_tree(current_schema(), meta, ast);
    if let JsonV::Object(m) = t {
        crate::json_value::lemma_key_index(m, "schema"@);
        crate::json_value::lemma_key_index(m, "meta"@);
        crate::json_value::lemma_key_index(m, "ast"@);
        assert("schema"@.len() == 6 && "meta"@.len() == 4 && "ast"@.len() == 3);
        assert(m[0].0 == "schema"@);
        assert(m[m.len() - 1].0 == "ast"@);
        if meta is Some {
            assert(m[1].0 == "meta"@);
        }
        let sv = seq![
            ("major"@, JsonV::Number(decimal(1))),
            ("minor"@, JsonV::Number(decimal(2))),
        ];
        crate::json_value::lemma_key_index(sv, "major"@);
        assert("major"@.len() == 5 && "minor"@.len() == 5);
        assert("major"@[1] != "minor"@[1]);
        assert(decimal(1) == seq!['1']);
        assert(seq!['1'].drop_last() =~= Seq::<char>::empty());
        assert(digits_value(Seq::<char>::empty()) == 0);
        assert(('1' as u32) == 49 && ('0' as u32) == 48);
        assert(seq!['1'].last() == '1');
        assert(digits_value(seq!['1']) == 1);
        assert(number_as_u64(seq!['1']) == Some(1u64));
    }
}

proof fn lemma_definition_items(m: Seq<(Seq<char>, JsonV)>)
    ensures
        definition_items(m).len() == 2 * m.len(),
        forall|i: int|
            0 <= i < m.len() ==> #[trigger] definition_items(m)[2 * i] == text_node_spec("_def_title"@, m[i].0)
                && definition_items(m)[2 * i + 1] == text_node_spec(
                "_def_body"@,
                match m[i].1 {
                    JsonV::Str(s) => s,
                    v => json_compact(v),
                },
            ),
    decreases m.len(),
{
    if m.len() > 0 {
        let p = m.drop_last();
        lemma_definition_items(p);
        let d = definition_items(m);
        assert forall|i: int| 0 <= i < m.len() implies #[trigger] d[2 * i] == text_node_spec("_def_title"@, m[i].0)
            && d[2 * i + 1] == text_node_spec(
            "_def_body"@,
            match m[i].1 {
                JsonV::Str(s) => s,
                v => json_compact(v),
            },
        ) by {
            if i < p.len() {
                assert(m[i] == p[i]);
                assert(d[2 * i] == definition_items(p)[2 * i]);
                assert(d[2 * i + 1] == definition_items(p)[2 * i + 1]);
            }
        }
    }
}

/// The type and the `items` array of a node `{"t": t, "items": [...]}`.
pub open spec fn list_node_parts(v: JsonV) -> (Seq<char>, Seq<JsonV>) {
    match v {
        JsonV::Object(n) => (
            match members_get(n, "t"@) {
                Some(JsonV::Str(t)) => t,
                _ => Seq::empty(),
            },
            match members_get(n, "items"@) {
                Some(JsonV::Array(items)) => items,
                _ => Seq::empty(),
            },
        ),
        _ => (Seq::empty(), Seq::empty()),
    }
}

/// An object becomes one definition list whose items are, for each member
/// in order, a title holding the member's key and a body holding its
/// value's text: a string value exactly as it stands, any other value as
/// compact JSON.
pub proof fn lemma_object_definition_list(m: Seq<(Seq<char>, JsonV)>)
    ensures
        json_data_ast(JsonV::Object(m)).len() == 1,
        list_node_parts(json_data_ast(JsonV::Object(m))[0]).0 == "definition_list"@,
        list_node_parts(json_data_ast(JsonV::Object(m))[0]).1.len() == 2 * m.len(),
        forall|i: int|
            0 <= i < m.len() ==> #[trigger] list_node_parts(json_data_ast(JsonV::Object(m))[0]).1[2 * i]
                == text_node_spec("_def_title"@, m[i].0),
        forall|i: int|
            0 <= i < m.len() ==> #[trigger] list_node_parts(json_data_ast(JsonV::Object(m))[0]).1[2 * i + 1]
                == text_node_spec(
                "_def_body"@,
                match m[i].1 {
                    JsonV::Str(s) => s,
                    v => json_compact(v),
                },
            ),
{
    lemma_definition_items(m);
    let n = seq![
        ("t"@, JsonV::Str("definition_list"@)),
        ("items"@, JsonV::Array(definition_items(m))),
    ];
    reveal_strlit("t");
    reveal_strlit("items");
    assert("t"@.len() == 1 && "items"@.len() == 5);
    crate::ast_spec::lemma_get_members(n, "t"@);
    crate::ast_spec::lemma_get_members(n, "items"@);
    assert(members_get(n, "t"@) == Some(n[0].1));
    assert(members_get(n, "items"@) == Some(n[1].1));
    let items = definition_items(m);
    assert forall|i: int| 0 <= i < m.len() implies #[trigger] items[2 * i + 1] == text_node_spec(
        "_def_body"@,
        match m[i].1 {
            JsonV::Str(s) => s,
            v => json_compact(v),
        },
    ) by {
        assert(items[2 * i] == text_node_spec("_def_title"@, m[i].0));
    }
}

/// The text of a member value as a table cell or definition body shows it:
/// a string exactly as it stands, any other value as compact JSON, and an
/// absent member as empty text.
pub open spec fn shown_text(v: Option<JsonV>) -> Seq<char> {
    match v {
        Some(JsonV::Str(s)) => s,
        Some(x) => json_compact(x),
        None => Seq::empty(),
    }
}

/// The members of an object value (none for another value).
pub open spec fn object_members(v: JsonV) -> Seq<(Seq<char>, JsonV)> {
    match v {
        JsonV::Object(m) => m,
        _ => Seq::empty(),
    }
}

proof fn lemma_object_rows(items: Seq<JsonV>, keys: Seq<Seq<char>>)
    requires
        forall|i: int| 0 <= i < items.len() ==> #[trigger] items[i] is Object,
    ensures
        object_rows(items, keys).len() == items.len(),
        forall|i: int|
            0 <= i < items.len() ==> #[trigger] object_rows(items, keys)[i] == object_row(
                object_members(items[i]),
                keys,
            ),
    decreases items.len(),
{
    if items.len() > 0 {
        let p = items.drop_last();
        assert forall|i: int| 0 <= i < p.len() implies #[trigger] p[i] is Object by {
            assert(p[i] == items[i]);
        }
        lemma_object_rows(p, keys);
        assert(items.last() == items[items.len() - 1]);
        assert forall|i: int| 0 <= i < items.len() implies #[trigger] object_rows(items, keys)[i] == object_row(
            object_members(items[i]),
            keys,
        ) by {
            if i < p.len() {
                assert(p[i] == items[i]);
            }
        }
    }
}

/// An array of objects becomes one table: a header cell for each key of the
/// first object, in order, and for each object a row whose cell under a key
/// shows that object's value for the key (a string exactly as it stands,
/// another value as compact JSON, nothing when the object lacks the key).
pub proof fn lemma_objects_table(items: Seq<JsonV>)
    requires
        items.len() > 0,
        forall|i: int| 0 <= i < items.len() ==> #[trigger] items[i] is Object,
    ensures
        json_data_ast(JsonV::Array(items)).len() == 1,
        ({
            let keys = member_keys(object_members(items[0]));
            let t = json_data_ast(JsonV::Array(items))[0];
            &&& crate::csv::table_headers(t).len() == keys.len()
            &&& forall|j: int|
                0 <= j < keys.len() ==> #[trigger] crate::csv::table_headers(t)[j] == text_node_spec(
                    "_cell"@,
                    keys[j],
                )
            &&& crate::csv::table_rows(t).len() == items.len()
            &&& forall|i: int, j: int|
                0 <= i < items.len() && 0 <= j < keys.len() ==> #[trigger] crate::csv::row_items(
                    crate::csv::table_rows(t)[i],
                )[j] == text_node_spec("_cell"@, shown_text(members_get(object_members(items[i]), keys[j])))
        }),
{
    assert(items[0] is Object);
    let keys = member_keys(object_members(items[0]));
    lemma_object_rows(items, keys);
    let m = seq![
        ("t"@, JsonV::Str("table"@)),
        ("align"@, JsonV::Array(keys.map_values(|k: Seq<char>| JsonV::Str("none"@)))),
        ("headers"@, JsonV::Array(keys.map_values(|k: Seq<char>| text_node_spec("_cell"@, k)))),
        ("rows"@, JsonV::Array(object_rows(items, keys))),
    ];
    assert(json_data_ast(JsonV::Array(items)) == seq![JsonV::Object(m)]);
    reveal_strlit("t");
    reveal_strlit("align");
    reveal_strlit("headers");
    reveal_strlit("rows");
    assert("t"@.len() == 1 && "align"@.len() == 5 && "headers"@.len() == 7 && "rows"@.len() == 4);
    crate::ast_spec::lemma_get_members(m, "headers"@);
    crate::ast_spec::lemma_get_members(m, "rows"@);
    assert(members_get(m, "headers"@) == Some(m[2].1));
    assert(members_get(m, "rows"@) == Some(m[3].1));
    let t = JsonV::Object(m);
    assert forall|i: int, j: int| 0 <= i < items.len() && 0 <= j < keys.len() implies #[trigger] crate::csv::row_items(
        crate::csv::table_rows(t)[i],
    )[j] == text_node_spec("_cell"@, shown_text(members_get(object_members(items[i]), keys[j]))) by {
        assert(object_rows(items, keys)[i] == object_row(object_members(items[i]), keys));
    }
}

} // verus!
