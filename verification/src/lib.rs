//! A formatter for SATySFi source code.

pub mod text;
pub mod width;
pub mod rule;
pub mod parse;
pub mod cst;
pub mod comment;
pub mod source;
pub mod layout;
pub mod laws;
pub mod options;
pub mod formatter;

use vstd::prelude::*;
use crate::cst::{check_wf, height, tree_height, wf, Tree};
use crate::formatter::{law_tidy_lines, lines_trimmed, tidy, wants_final_newline, Formatter};
use crate::text::has_suffix;
use crate::layout::{render, Layout};
use crate::options::{spec_line_width, FormattingOptions};
use crate::parse::{parse_program, parsed_program, ParsedNode};
use crate::source::{line_starts, node_list, source_of, CstText};
use crate::text::chars_of;

verus! {

/// The layout settings for a text under the given options.
pub open spec fn layout_of(text: Seq<char>, option: FormattingOptions) -> Layout {
    Layout { tab: option.tab_size as nat, width: spec_line_width(option), lines: line_starts(text) }
}

/// What the formatter writes for a text over the tree made for it; the text itself where the
/// tree cannot be laid out (a node of incomplete input, an empty text argument or bullet, a
/// type expression or module without parts, a span outside the text, or a tree too deep for
/// its depth to be counted).
pub open spec fn formatted_tree(text: Seq<char>, t: Tree, option: FormattingOptions) -> Seq<char> {
    if wf(t, text.len()) && 2 * height(t) <= usize::MAX {
        tidy(render(layout_of(text, option), text, t, 0), wants_final_newline(option))
    } else {
        text
    }
}

/// What the formatter writes for a text, given what the parser made of it; the text itself
/// where it did not parse.
pub open spec fn formatted(text: Seq<char>, nodes: Option<Seq<ParsedNode>>, option: FormattingOptions) -> Seq<char> {
    match source_of(text, nodes) {
        Some(t) => formatted_tree(text, t, option),
        None => text,
    }
}

/// Formats SATySFi source code.
pub fn format(input: &str, option: FormattingOptions) -> (r: String)
    ensures
        r@ == formatted(input@, parsed_program(input@), option),
{
    let nodes = parse_program(input);
    format_parsed(input, nodes, option)
}

/// Formats SATySFi source code, given the nodes that the parser made of it.
pub fn format_parsed(input: &str, nodes: Option<Vec<ParsedNode>>, option: FormattingOptions) -> (r: String)
    ensures
        r@ == formatted(input@, node_list(nodes), option),
{
    let csttext = match CstText::from_nodes(input, nodes) {
        Some(c) => c,
        None => return input.to_owned(),
    };
    let len = chars_of(input).len();
    if !check_wf(&csttext.cst, len) {
        return input.to_owned();
    }
    let h = tree_height(&csttext.cst);
    if h > usize::MAX / 2 {
        return input.to_owned();
    }
    let f = Formatter::new(&csttext, option);
    f.format(input, &csttext.cst, 0)
}

/// No line of a formatted text ends in white space, and the text ends with a line break
/// unless the options set `insert_final_newline` to false.
pub proof fn law_formatted_lines(text: Seq<char>, nodes: Option<Seq<ParsedNode>>, option: FormattingOptions)
    requires
        source_of(text, nodes) matches Some(t) && wf(t, text.len()) && 2 * height(t) <= usize::MAX,
    ensures
        lines_trimmed(formatted(text, nodes, option)),
        wants_final_newline(option) ==> has_suffix(formatted(text, nodes, option), seq!['\n']),
{
    let t = source_of(text, nodes)->0;
    law_tidy_lines(render(layout_of(text, option), text, t, 0), wants_final_newline(option));
}

/// A text that does not parse is given back as it is.
pub proof fn law_unparsed_unchanged(text: Seq<char>, option: FormattingOptions)
    requires
        parsed_program(text) is None,
    ensures
        formatted(text, parsed_program(text), option) == text,
{
}

} // verus!
