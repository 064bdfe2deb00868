//! Parser configuration: which CommonMark extensions the parse enables.
use vstd::prelude::*;

verus! {

/// The set of `pulldown_cmark` extensions that a parse enables.
#[derive(Clone, Copy, PartialEq, Eq, Structural, Debug)]
pub struct ParserOptions {
    pub tables: bool,
    pub footnotes: bool,
    pub strikethrough: bool,
    pub tasklists: bool,
    pub heading_attributes: bool,
    pub math: bool,
    pub gfm: bool,
    pub definition_list: bool,
    pub superscript: bool,
    pub subscript: bool,
}

/// The option set of every parse of this crate: all of the listed
/// extensions are enabled (YAML frontmatter is handled by a pre-pass).
pub open spec fn markplus_options() -> ParserOptions {
    ParserOptions {
        tables: true,
        footnotes: true,
        strikethrough: true,
        tasklists: true,
        heading_attributes: true,
        math: true,
        gfm: true,
        definition_list: true,
        superscript: true,
        subscript: true,
    }
}

/// Builds the option set used by every parse pass of this crate: all of the
/// listed extensions are enabled (YAML frontmatter is handled by a pre-pass).
pub fn parser_options() -> (o: ParserOptions)
    ensures
        o == markplus_options(),
        o == (ParserOptions {
            tables: true,
            footnotes: true,
            strikethrough: true,
            tasklists: true,
            heading_attributes: true,
            math: true,
            gfm: true,
            definition_list: true,
            superscript: true,
            subscript: true,
        }),
{
    ParserOptions {
        tables: true,
        footnotes: true,
        strikethrough: true,
        tasklists: true,
        heading_attributes: true,
        math: true,
        gfm: true,
        definition_list: true,
        superscript: true,
        subscript: true,
    }
}

} // verus!
