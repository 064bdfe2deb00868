use vstd::prelude::*;
use crate::ast::build_ast;
use crate::event_filter::{find_frontmatter, frontmatter_prepass, split_frontmatter};
use crate::frontmatter::{lemma_metadata_is_a_map, opt_json, parse_yaml_frontmatter, yaml_spec};
use crate::json::{asset_errors, asset_tree, current_schema, lemma_current_asset_is_valid, SiteAsset};
use crate::json_value::{view_items, Json, JsonV};
use crate::ast_spec::{lemma_build_ast_typed, typed};
use crate::cmark::cmark_events;
use crate::config::markplus_options;
use crate::prepass::{directive_prepass, directive_spec, lemma_directives_typed, masked_ast, parse};
use crate::text::{own, str_chars};
use crate::transform::{transform_events, transform_spec};
use crate::schema::{block_fields, closes_own_from, lemma_build_ast_fields, lemma_directives_fields};
use crate::ast_spec::builder_init;

pub mod json_value;
pub mod text;
pub mod code;
pub mod config;
pub mod cmark;
pub mod attrs;
pub mod event_filter;
pub mod ast_spec;
pub mod ast;
pub mod widgets;
pub mod transform;
pub mod prepass;
pub mod frontmatter;
pub mod json;
pub mod plugins;
pub mod csv;
pub mod mermaid;
pub mod typst;
pub mod flat;
pub mod schema;

verus! {

/// Errors that can occur while compiling Markdown into a site asset.
#[derive(Debug, Clone, PartialEq, Eq)]
pub enum CompileError {
    /// The document frontmatter could not be parsed as YAML.
    InvalidFrontmatter(String),
}

impl CompileError {
    /// The error's message: `invalid frontmatter: ` and the reader's detail.
    pub fn message(&self) -> (r: String)
        ensures
            match self {
                CompileError::InvalidFrontmatter(m) => r@ == "invalid frontmatter: "@ + m@,
            },
    {
        match self {
            CompileError::InvalidFrontmatter(m) => {
                let mut s = own("invalid frontmatter: ");
                s.append(m.as_str());
                s
            },
        }
    }
}

/// The AST of a Markdown body (a text without frontmatter).
pub open spec fn body_ast(body: Seq<char>) -> Seq<JsonV> {
    masked_ast(directive_spec(body))
}

/// Every block of a body's AST is a node: an object whose first member is
/// its string type `t` (the directive nodes included).
pub proof fn lemma_every_block_is_a_node(body: Seq<char>)
    ensures
        forall|i: int| 0 <= i < body_ast(body).len() ==> typed(#[trigger] body_ast(body)[i]),
{
    let dp = directive_spec(body);
    lemma_directives_typed(body);
    lemma_build_ast_typed(transform_spec(cmark_events(dp.0, markplus_options())), dp.1);
}

/// Every block of a body's AST has the fields that the AST reference gives
/// its type (a heading's `level` and `children`, a fenced block's `name`,
/// `attrs` and `raw`, a list's `ordered` and `items`, a table's `align`,
/// `headers` and `rows`, and so on), whenever every closing event of the
/// body's enriched event stream closes a frame of its own kind, as the
/// parser's balanced start and end events give.
pub proof fn lemma_body_ast_fields(body: Seq<char>)
    requires
        closes_own_from(
            transform_spec(cmark_events(directive_spec(body).0, markplus_options())),
            0,
            builder_init(),
        ),
    ensures
        forall|i: int| 0 <= i < body_ast(body).len() ==> block_fields(#[trigger] body_ast(body)[i]),
{
    let dp = directive_spec(body);
    lemma_directives_fields(body);
    lemma_build_ast_fields(transform_spec(cmark_events(dp.0, markplus_options())), dp.1);
}

/// Parses a Markdown body (no frontmatter) into its AST: directives are
/// cut out first, the rest is parsed as CommonMark, the event stream is
/// enriched (inline widgets, link attributes) and built into block nodes,
/// and the directive nodes are merged back in by position.
pub fn parse_body(body: &str) -> (r: Vec<Json>)
    ensures
        view_items(r@) == body_ast(body@),
{
    let (masked, directives) = directive_prepass(body);
    let events = parse(masked.as_str());
    let rich = transform_events(events);
    build_ast(rich, directives)
}

/// Parses a Markdown document, which may start with YAML frontmatter, into
/// a site asset of the current schema version: the frontmatter becomes its
/// metadata and the body its AST; frontmatter that cannot be read as a
/// YAML map gives an `InvalidFrontmatter` error.
pub fn parse_document(raw_md: &str) -> (r: Result<SiteAsset, CompileError>)
    ensures
        match yaml_spec(split_frontmatter(raw_md@).1) {
            Ok(m) => r matches Ok(a) && a.schema == current_schema() && opt_json(a.meta) == m
                && view_items(a.ast@) == body_ast(split_frontmatter(raw_md@).0),
            Err(e) => r matches Err(CompileError::InvalidFrontmatter(msg)) && msg@ == e,
        },
{
    let (body, frontmatter) = frontmatter_prepass(raw_md);
    let ast = parse_body(body.as_str());
    let fm: Option<&str> = match &frontmatter {
        Some(f) => Some(f.as_str()),
        None => None,
    };
    match parse_yaml_frontmatter(fm) {
        Ok(meta) => Ok(SiteAsset::new(meta, ast)),
        Err(e) => Err(e),
    }
}

/// Parses a Markdown document as [`parse_document`] does, except that
/// frontmatter that cannot be read as a YAML map leaves the metadata out
/// instead of failing.
pub fn parse_document_lenient(raw_md: &str) -> (r: SiteAsset)
    ensures
        r.schema == current_schema(),
        view_items(r.ast@) == body_ast(split_frontmatter(raw_md@).0),
        opt_json(r.meta) == match yaml_spec(split_frontmatter(raw_md@).1) {
            Ok(m) => m,
            Err(_) => None,
        },
{
    let (body, frontmatter) = frontmatter_prepass(raw_md);
    let ast = parse_body(body.as_str());
    let fm: Option<&str> = match &frontmatter {
        Some(f) => Some(f.as_str()),
        None => None,
    };
    let meta = match parse_yaml_frontmatter(fm) {
        Ok(m) => m,
        Err(_) => None,
    };
    SiteAsset::new(meta, ast)
}

/// The site asset of any document that parses passes validation: its
/// schema is the current one, its metadata a map or absent, its AST an
/// array.
pub proof fn lemma_parsed_asset_is_valid(raw_md: Seq<char>)
    ensures
        yaml_spec(split_frontmatter(raw_md).1) matches Ok(m) ==> asset_errors(
            asset_tree(current_schema(), m, body_ast(split_frontmatter(raw_md).0)),
        ).len() == 0,
{
    let fm = split_frontmatter(raw_md).1;
    lemma_metadata_is_a_map(fm);
    if let Ok(m) = yaml_spec(fm) {
        lemma_current_asset_is_valid(m, body_ast(split_frontmatter(raw_md).0));
    }
}

/// Returns the Markdown body of `raw`: `raw` with a leading YAML
/// frontmatter block removed (the body that `frontmatter_prepass` returns).
pub fn strip_frontmatter(raw: &str) -> (r: &str)
    ensures
        r@ == split_frontmatter(raw@).0,
{
    let s = str_chars(raw);
    match find_frontmatter(&s) {
        Some((_a, _c, b)) => raw.substring_char(b, s.len()),
        None => raw,
    }
}

/// Returns the raw frontmatter text of a document, or an empty string when
/// it has none.
pub fn get_frontmatter(raw_md: String) -> (r: String)
    ensures
        r@ == match split_frontmatter(raw_md@).1 {
            Some(f) => f,
            None => Seq::empty(),
        },
{
    let (_body, fm) = frontmatter_prepass(raw_md.as_str());
    match fm {
        Some(f) => f,
        None => String::new(),
    }
}

} // verus!
