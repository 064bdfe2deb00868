//! Typst markup from a flat list of tokens (`{"type": ..., ...}`), with
//! plugin tokens rendered by the plugin registered for their engine.
use vstd::prelude::*;
use crate::ast_spec::number_as_u64;
use crate::ast::number_text_as_u64;
use crate::json_value::{json_get, members_get, Json, JsonV};
use crate::plugins::{Plugin, PluginRegistry};
use crate::text::{decimal, decimal_string, push_char, str_chars, string_of_range, trim, trim_range};

verus! {

/// `t[k]` as `serde_json` indexes a value: the member of an object, else
/// null.
pub open spec fn member_of(t: JsonV, k: Seq<char>) -> JsonV {
    match t {
        JsonV::Object(m) => match members_get(m, k) {
            Some(v) => v,
            None => JsonV::Null,
        },
        _ => JsonV::Null,
    }
}

/// A string value's text, else empty (`as_str().unwrap_or("")`).
pub open spec fn str_or_empty(v: JsonV) -> Seq<char> {
    match v {
        JsonV::Str(s) => s,
        _ => Seq::empty(),
    }
}

/// A non-negative integer value, else `d` (`as_u64().unwrap_or(d)`).
pub open spec fn u64_or(v: JsonV, d: u64) -> u64 {
    match v {
        JsonV::Number(t) => match number_as_u64(t) {
            Some(n) => n,
            None => d,
        },
        _ => d,
    }
}

/// The token's type.
pub open spec fn token_type(t: JsonV) -> Seq<char> {
    str_or_empty(member_of(t, "type"@))
}

/// The line of a table cell: `  [text],`.
pub open spec fn cell_line(c: JsonV) -> Seq<char> {
    "  ["@ + str_or_empty(c) + "],\n"@
}

/// The lines of a table's cells, row by row.
pub open spec fn rows_lines(rows: JsonV) -> Seq<char> {
    match rows {
        JsonV::Array(rs) => rs.map_values(
            |r: JsonV|
                match r {
                    JsonV::Array(cs) => cs.map_values(|c: JsonV| cell_line(c)).flatten(),
                    _ => Seq::empty(),
                },
        ).flatten(),
        _ => Seq::empty(),
    }
}

/// The headers of a table token.
pub open spec fn table_headers(t: JsonV) -> Seq<JsonV> {
    match member_of(t, "headers"@) {
        JsonV::Array(h) => h,
        _ => Seq::empty(),
    }
}

/// The Typst markup of a token that is not a plugin token.
pub open spec fn typst_piece(t: JsonV) -> Seq<char> {
    let ty = token_type(t);
    let text = str_or_empty(member_of(t, "text"@));
    if ty == "heading"@ {
        Seq::new(u64_or(member_of(t, "level"@), 1) as nat, |_i: int| '=') + " "@ + text + "\n\n"@
    } else if ty == "paragraph"@ {
        text + "\n\n"@
    } else if ty == "code_block"@ {
        "```"@ + str_or_empty(member_of(t, "language"@)) + "\n"@ + str_or_empty(member_of(t, "code"@))
            + "\n```\n\n"@
    } else if ty == "hr"@ {
        "---\n\n"@
    } else if ty == "list_item"@ {
        "- "@ + text + "\n"@
    } else if ty == "table"@ {
        "#table(\n"@ + "  columns: "@ + decimal(table_headers(t).len()) + ",\n"@ + table_headers(
            t,
        ).map_values(|h: JsonV| cell_line(h)).flatten() + rows_lines(member_of(t, "rows"@))
            + ")\n\n"@
    } else {
        Seq::empty()
    }
}

/// Whether a token can be compiled: a table token's headers are an array,
/// and a heading's level is at most `isize::MAX`.
pub open spec fn typst_token_ok(t: JsonV) -> bool {
    &&& token_type(t) == "table"@ ==> member_of(t, "headers"@) is Array
    &&& token_type(t) == "heading"@ ==> u64_or(member_of(t, "level"@), 1) <= isize::MAX
}

fn member_exec<'a>(t: &'a Json, k: &str) -> (r: Option<&'a Json>)
    ensures
        match r {
            Some(j) => j@ == member_of(t@, k@),
            None => member_of(t@, k@) == JsonV::Null,
        },
{
    json_get(t, k)
}

fn str_exec(v: Option<&Json>) -> (r: &str)
    ensures
        r@ == str_or_empty(
            match v {
                Some(j) => j@,
                None => JsonV::Null,
            },
        ),
{
    proof {
        reveal_strlit("");
    }
    match v {
        Some(Json::Str(s)) => s.as_str(),
        _ => "",
    }
}

fn push_cell_line(out: &mut String, c: &Json)
    ensures
        final(out)@ == old(out)@ + cell_line(c@),
{
    out.append("  [");
    out.append(str_exec(Some(c)));
    out.append("],\n");
}

/// Appends the lines of the cells `cs`.
fn push_cell_lines(out: &mut String, cs: &Vec<Json>)
    ensures
        final(out)@ == old(out)@ + cs@.map_values(|c: Json| c@).map_values(|c: JsonV| cell_line(c)).flatten(),
{
    let ghost o0 = out@;
    let ghost lines = cs@.map_values(|c: Json| c@).map_values(|c: JsonV| cell_line(c));
    let mut i: usize = 0;
    assert(lines.subrange(0, 0) =~= Seq::<Seq<char>>::empty());
    while i < cs.len()
        invariant
            i <= cs@.len(),
            lines == cs@.map_values(|c: Json| c@).map_values(|c: JsonV| cell_line(c)),
            out@ == o0 + lines.subrange(0, i as int).flatten(),
        decreases cs.len() - i,
    {
        push_cell_line(out, &cs[i]);
        assert(lines.subrange(0, i + 1) =~= lines.subrange(0, i as int).push(lines[i as int]));
        proof {
            lines.subrange(0, i as int).lemma_flatten_push(lines[i as int]);
        }
        i = i + 1;
    }
    assert(lines.subrange(0, lines.len() as int) =~= lines);
}

/// The Typst markup of a token that is not a plugin token.
fn push_piece(out: &mut String, t: &Json)
    requires
        typst_token_ok(t@),
    ensures
        final(out)@ == old(out)@ + typst_piece(t@),
{
    let ty = str_exec(member_exec(t, "type"));
    let text = str_exec(member_exec(t, "text"));
    if crate::text::str_eq(ty, "heading") {
        let level: u64 = match member_exec(t, "level") {
            Some(Json::Number(n)) => match number_text_as_u64(n.as_str()) {
                Some(l) => l,
                None => 1,
            },
            _ => 1,
        };
        let ghost o0 = out@;
        let mut k: u64 = 0;
        while k < level
            invariant
                k <= level,
                out@ == o0 + Seq::new(k as nat, |_i: int| '='),
            decreases level - k,
        {
            push_char(out, '=');
            assert(out@ =~= o0 + Seq::new((k + 1) as nat, |_i: int| '='));
            k = k + 1;
        }
        out.append(" ");
        out.append(text);
        out.append("\n\n");
    } else if crate::text::str_eq(ty, "paragraph") {
        out.append(text);
        out.append("\n\n");
    } else if crate::text::str_eq(ty, "code_block") {
        out.append("```");
        out.append(str_exec(member_exec(t, "language")));
        out.append("\n");
        out.append(str_exec(member_exec(t, "code")));
        out.append("\n```\n\n");
    } else if crate::text::str_eq(ty, "hr") {
        out.append("---\n\n");
    } else if crate::text::str_eq(ty, "list_item") {
        out.append("- ");
        out.append(text);
        out.append("\n");
    } else if crate::text::str_eq(ty, "table") {
        let headers = match member_exec(t, "headers") {
            Some(Json::Array(h)) => h,
            _ => {
                assert(false);
                return;
            },
        };
        out.append("#table(\n");
        out.append("  columns: ");
        out.append(decimal_string(headers.len() as u64).as_str());
        out.append(",\n");
        proof {
            crate::json_value::lemma_view_items(headers@);
            assert(headers@.map_values(|c: Json| c@) =~= crate::json_value::view_items(headers@));
        }
        push_cell_lines(out, headers);
        match member_exec(t, "rows") {
            Some(Json::Array(rows)) => {
                let ghost o1 = out@;
                let ghost rv = rows@.map_values(|r: Json| r@);
                let ghost parts = rv.map_values(
                    |r: JsonV|
                        match r {
                            JsonV::Array(cs) => cs.map_values(|c: JsonV| cell_line(c)).flatten(),
                            _ => Seq::empty(),
                        },
                );
                let mut i: usize = 0;
                assert(parts.subrange(0, 0) =~= Seq::<Seq<char>>::empty());
                while i < rows.len()
                    invariant
                        i <= rows@.len(),
                        rv == rows@.map_values(|r: Json| r@),
                        parts == rv.map_values(
                            |r: JsonV|
                                match r {
                                    JsonV::Array(cs) => cs.map_values(|c: JsonV| cell_line(c)).flatten(),
                                    _ => Seq::empty(),
                                },
                        ),
                        out@ == o1 + parts.subrange(0, i as int).flatten(),
                    decreases rows.len() - i,
                {
                    match &rows[i] {
                        Json::Array(cs) => {
                            proof {
                                crate::json_value::lemma_view_items(cs@);
                                assert(cs@.map_values(|c: Json| c@) =~= crate::json_value::view_items(cs@));
                            }
                            push_cell_lines(out, cs);
                        },
                        _ => {},
                    }
                    assert(parts.subrange(0, i + 1) =~= parts.subrange(0, i as int).push(parts[i as int]));
                    proof {
                        parts.subrange(0, i as int).lemma_flatten_push(parts[i as int]);
                    }
                    i = i + 1;
                }
                assert(parts.subrange(0, parts.len() as int) =~= parts);
                proof {
                    crate::json_value::lemma_view_items(rows@);
                    assert(rv =~= crate::json_value::view_items(rows@));
                }
            },
            _ => {},
        }
        out.append(")\n\n");
    }
}

/// Whether a token is a plugin token.
pub open spec fn is_plugin_token(t: JsonV) -> bool {
    token_type(t) == "plugin"@
}

/// The engine that a plugin token names.
pub open spec fn token_engine(t: JsonV) -> Seq<char> {
    str_or_empty(member_of(t, "engine"@))
}

/// The Typst markup of a token: a plugin token is rendered by the plugin
/// registered for its engine, followed by a blank line (nothing when no
/// plugin is registered or it gives nothing); any other token by its fields.
pub open spec fn token_piece(t: JsonV, registry: PluginRegistry) -> Seq<char> {
    if is_plugin_token(t) {
        match registry.typst_by(token_engine(t), t) {
            Some(Some(x)) => x + "\n\n"@,
            _ => Seq::empty(),
        }
    } else {
        typst_piece(t)
    }
}

/// The Typst markup of the tokens, one after the other.
pub open spec fn typst_all(tokens: Seq<JsonV>, registry: PluginRegistry) -> Seq<char> {
    tokens.map_values(|t: JsonV| token_piece(t, registry)).flatten()
}

/// Compiles a flat token list to Typst markup: headings, paragraphs, code
/// blocks, rules, list items and tables by their fields, plugin tokens by
/// the plugin registered for their engine; the whole trimmed.
pub fn compile_to_typst(tokens: &[Json], registry: &PluginRegistry) -> (r: String)
    requires
        forall|i: int| 0 <= i < tokens@.len() ==> typst_token_ok(#[trigger] tokens@[i]@),
    ensures
        r@ == trim(typst_all(tokens@.map_values(|t: Json| t@), *registry)),
{
    let ghost tv = tokens@.map_values(|t: Json| t@);
    let ghost pieces = tv.map_values(|t: JsonV| token_piece(t, *registry));
    let mut typst = String::new();
    let mut i: usize = 0;
    assert(pieces.subrange(0, 0) =~= Seq::<Seq<char>>::empty());
    while i < tokens.len()
        invariant
            i <= tokens@.len(),
            tv == tokens@.map_values(|t: Json| t@),
            pieces == tv.map_values(|t: JsonV| token_piece(t, *registry)),
            forall|k: int| 0 <= k < tokens@.len() ==> typst_token_ok(#[trigger] tokens@[k]@),
            typst@ == pieces.subrange(0, i as int).flatten(),
        decreases tokens.len() - i,
    {
        let t = &tokens[i];
        let ghost before = typst@;
        let ty = str_exec(member_exec(t, "type"));
        if crate::text::str_eq(ty, "plugin") {
            let engine = str_exec(member_exec(t, "engine"));
            match registry.render_typst_by(engine, t) {
                Some(Some(rendered)) => {
                    typst.append(rendered.as_str());
                    typst.append("\n\n");
                },
                _ => {},
            }
        } else {
            push_piece(&mut typst, t);
        }
        proof {
            assert(typst@ =~= before + pieces[i as int]);
            assert(pieces.subrange(0, i + 1) =~= pieces.subrange(0, i as int).push(pieces[i as int]));
            pieces.subrange(0, i as int).lemma_flatten_push(pieces[i as int]);
        }
        i = i + 1;
    }
    assert(pieces.subrange(0, pieces.len() as int) =~= pieces);
    let c = str_chars(typst.as_str());
    let (a, b) = trim_range(c.as_slice(), 0, c.len());
    assert(c@.subrange(0, c@.len() as int) =~= c@);
    string_of_range(c.as_slice(), a, b)
}

proof fn lemma_digit(d: nat)
    requires
        d < 10,
    ensures
        '0' <= crate::text::digit_char(d) <= '9',
        (crate::text::digit_char(d) as u32 - '0' as u32) as nat == d,
{
    assert(('0' as u32) == 48 && ('9' as u32) == 57);
    if d == 0 {
    } else if d == 1 {
        assert(('1' as u32) == 49);
    } else if d == 2 {
        assert(('2' as u32) == 50);
    } else if d == 3 {
        assert(('3' as u32) == 51);
    } else if d == 4 {
        assert(('4' as u32) == 52);
    } else if d == 5 {
        assert(('5' as u32) == 53);
    } else if d == 6 {
        assert(('6' as u32) == 54);
    } else if d == 7 {
        assert(('7' as u32) == 55);
    } else if d == 8 {
        assert(('8' as u32) == 56);
    } else {
        assert(('9' as u32) == 57);
    }
}

/// The decimal text of `n` is made of digits and reads back as `n`.
proof fn lemma_decimal_value(n: nat)
    ensures
        decimal(n).len() > 0,
        forall|i: int| 0 <= i < decimal(n).len() ==> '0' <= #[trigger] decimal(n)[i] <= '9',
        crate::ast_spec::digits_value(decimal(n)) == n,
    decreases n,
{
    if n < 10 {
        lemma_digit(n);
        let c = crate::text::digit_char(n);
        assert(decimal(n) == seq![c]);
        assert(seq![c].drop_last() =~= Seq::<char>::empty());
        assert(crate::ast_spec::digits_value(Seq::<char>::empty()) == 0);
    } else {
        lemma_decimal_value(n / 10);
        lemma_digit(n % 10);
        let p = decimal(n / 10);
        let c = crate::text::digit_char(n % 10);
        assert(decimal(n) == p.push(c));
        assert(p.push(c).drop_last() =~= p);
        assert(p.push(c).last() == c);
        assert forall|i: int| 0 <= i < p.push(c).len() implies '0' <= #[trigger] p.push(c)[i] <= '9' by {
            if i < p.len() {
                assert(p.push(c)[i] == p[i]);
            }
        }
        assert((n / 10) * 10 + n % 10 == n) by (nonlinear_arith);
    }
}

/// A heading token of level `n` (any level) compiles to exactly `n` `=`
/// characters, a space, its text and a blank line.
pub proof fn lemma_heading_markup(n: u64, text: Seq<char>, registry: PluginRegistry)
    ensures
        ({
            let tok = JsonV::Object(
                seq![
                    ("type"@, JsonV::Str("heading"@)),
                    ("level"@, JsonV::Number(decimal(n as nat))),
                    ("text"@, JsonV::Str(text)),
                ],
            );
            let r = typst_all(seq![tok], registry);
            &&& r.len() == n + 1 + text.len() + 2
            &&& forall|i: int| 0 <= i < n ==> r[i] == '='
            &&& r[n as int] == ' '
            &&& r.subrange(n + 1, n + 1 + text.len()) == text
            &&& r.subrange(n + 1 + text.len(), r.len() as int) == "\n\n"@
        }),
{
    let m = seq![
        ("type"@, JsonV::Str("heading"@)),
        ("level"@, JsonV::Number(decimal(n as nat))),
        ("text"@, JsonV::Str(text)),
    ];
    let tok = JsonV::Object(m);
    reveal_strlit("type");
    reveal_strlit("level");
    reveal_strlit("text");
    reveal_strlit("heading");
    reveal_strlit("plugin");
    reveal_strlit("\n\n");
    assert("type"@.len() == 4 && "level"@.len() == 5 && "text"@.len() == 4);
    assert("type"@[1] == 'y' && "text"@[1] == 'e');
    assert("heading"@.len() == 7 && "plugin"@.len() == 6 && "table"@ != "heading"@) by {
        reveal_strlit("table");
        assert("table"@.len() == 5);
    }
    crate::ast_spec::lemma_get_members(m, "type"@);
    crate::ast_spec::lemma_get_members(m, "level"@);
    crate::ast_spec::lemma_get_members(m, "text"@);
    assert(members_get(m, "type"@) == Some(m[0].1));
    assert(members_get(m, "level"@) == Some(m[1].1));
    assert(members_get(m, "text"@) == Some(m[2].1));
    lemma_decimal_value(n as nat);
    assert(number_as_u64(decimal(n as nat)) == Some(n));
    assert(!is_plugin_token(tok));
    let piece = Seq::new(n as nat, |_i: int| '=') + " "@ + text + "\n\n"@;
    reveal_strlit(" ");
    assert(typst_piece(tok) == piece);
    assert(seq![tok].map_values(|t: JsonV| token_piece(t, registry)) =~= seq![piece]);
    assert(seq![piece].drop_first() =~= Seq::<Seq<char>>::empty());
    assert(Seq::<Seq<char>>::empty().flatten() =~= Seq::<char>::empty());
    assert(seq![piece][0] == piece);
    assert(seq![piece].flatten() =~= piece + Seq::<char>::empty());
    assert(piece.subrange(n + 1, n + 1 + text.len()) =~= text);
    assert(piece.subrange(n + 1 + text.len(), piece.len() as int) =~= "\n\n"@);
}

proof fn lemma_single_token(tok: JsonV, registry: PluginRegistry)
    requires
        !is_plugin_token(tok),
    ensures
        typst_all(seq![tok], registry) == typst_piece(tok),
{
    let piece = typst_piece(tok);
    assert(seq![tok].map_values(|t: JsonV| token_piece(t, registry)) =~= seq![piece]);
    assert(seq![piece].drop_first() =~= Seq::<Seq<char>>::empty());
    assert(Seq::<Seq<char>>::empty().flatten() =~= Seq::<char>::empty());
    assert(seq![piece][0] == piece);
    assert(seq![piece].flatten() =~= piece + Seq::<char>::empty());
}

proof fn lemma_token_names()
    ensures
        "type"@.len() == 4 && "type"@[1] == 'y' && "type"@[0] == 't',
        "text"@.len() == 4 && "text"@[1] == 'e',
        "language"@.len() == 8,
        "code"@.len() == 4 && "code"@[0] == 'c',
        "level"@.len() == 5,
        "heading"@.len() == 7,
        "paragraph"@.len() == 9 && "paragraph"@[0] == 'p',
        "list_item"@.len() == 9 && "list_item"@[0] == 'l',
        "code_block"@.len() == 10,
        "hr"@.len() == 2,
        "table"@.len() == 5,
        "plugin"@.len() == 6,
{
    reveal_strlit("type");
    reveal_strlit("text");
    reveal_strlit("language");
    reveal_strlit("code");
    reveal_strlit("level");
    reveal_strlit("heading");
    reveal_strlit("paragraph");
    reveal_strlit("list_item");
    reveal_strlit("code_block");
    reveal_strlit("hr");
    reveal_strlit("table");
    reveal_strlit("plugin");
}

/// A paragraph token compiles to its text and a blank line; a list item to
/// `- `, its text and a line break; a code block to a fence with its
/// language, its code and a closing fence; a rule to `---`.
pub proof fn lemma_text_token_markup(x: Seq<char>, lang: Seq<char>, code: Seq<char>, registry: PluginRegistry)
    ensures
        typst_all(
            seq![JsonV::Object(seq![("type"@, JsonV::Str("paragraph"@)), ("text"@, JsonV::Str(x))])],
            registry,
        ) == x + "\n\n"@,
        typst_all(
            seq![JsonV::Object(seq![("type"@, JsonV::Str("list_item"@)), ("text"@, JsonV::Str(x))])],
            registry,
        ) == "- "@ + x + "\n"@,
        typst_all(
            seq![
                JsonV::Object(
                    seq![
                        ("type"@, JsonV::Str("code_block"@)),
                        ("language"@, JsonV::Str(lang)),
                        ("code"@, JsonV::Str(code)),
                    ],
                ),
            ],
            registry,
        ) == "```"@ + lang + "\n"@ + code + "\n```\n\n"@,
        typst_all(seq![JsonV::Object(seq![("type"@, JsonV::Str("hr"@))])], registry) == "---\n\n"@,
{
    lemma_token_names();
    let mp = seq![("type"@, JsonV::Str("paragraph"@)), ("text"@, JsonV::Str(x))];
    let ml = seq![("type"@, JsonV::Str("list_item"@)), ("text"@, JsonV::Str(x))];
    let mc = seq![
        ("type"@, JsonV::Str("code_block"@)),
        ("language"@, JsonV::Str(lang)),
        ("code"@, JsonV::Str(code)),
    ];
    let mh = seq![("type"@, JsonV::Str("hr"@))];
    crate::ast_spec::lemma_get_members(mp, "type"@);
    crate::ast_spec::lemma_get_members(mp, "text"@);
    crate::ast_spec::lemma_get_members(ml, "type"@);
    crate::ast_spec::lemma_get_members(ml, "text"@);
    crate::ast_spec::lemma_get_members(mc, "type"@);
    crate::ast_spec::lemma_get_members(mc, "text"@);
    crate::ast_spec::lemma_get_members(mc, "language"@);
    crate::ast_spec::lemma_get_members(mc, "code"@);
    crate::ast_spec::lemma_get_members(mh, "type"@);
    crate::ast_spec::lemma_get_members(mh, "text"@);
    assert(members_get(mp, "type"@) == Some(mp[0].1) && members_get(mp, "text"@) == Some(mp[1].1));
    assert(members_get(ml, "type"@) == Some(ml[0].1) && members_get(ml, "text"@) == Some(ml[1].1));
    assert(members_get(mc, "type"@) == Some(mc[0].1) && members_get(mc, "language"@) == Some(mc[1].1));
    assert(members_get(mc, "code"@) == Some(mc[2].1));
    assert(members_get(mh, "type"@) == Some(mh[0].1));
    lemma_single_token(JsonV::Object(mp), registry);
    lemma_single_token(JsonV::Object(ml), registry);
    lemma_single_token(JsonV::Object(mc), registry);
    lemma_single_token(JsonV::Object(mh), registry);
}

} // verus!
