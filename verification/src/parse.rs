//! The SATySFi parser of `satysfi_parser`, and the tree that this library builds from what
//! it returns.

use vstd::prelude::*;

verus! {

/// One node of a parsed tree, as the parser reports it: the number of its rule, the byte
/// offsets of its start and end in the source, and how many children it has.
pub type ParsedNode = (u16, usize, usize, usize);

/// What `satysfi_parser::grammar::program` makes of a source text, as its nodes listed in
/// pre-order (each node before its children, children from left to right); `None` when the
/// text does not parse.
pub uninterp spec fn parsed_program(text: Seq<char>) -> Option<Seq<ParsedNode>>;

/// Calls `satysfi_parser::grammar::program` on `text` and lists the nodes of the tree it
/// returns in pre-order, each with its rule's number, its byte span and its number of
/// children. The list is the named result for `text`; a parse error gives `None`.
#[verifier::external_body]
pub(crate) fn parse_program(text: &str) -> (r: Option<Vec<ParsedNode>>)
    ensures
        match r {
            Some(v) => parsed_program(text@) == Some(v@),
            None => parsed_program(text@) is None,
        },
{
    let root = satysfi_parser::grammar::program(text).ok()?;
    let mut nodes: Vec<ParsedNode> = Vec::new();
    let mut todo = vec![&root];
    while let Some(c) = todo.pop() {
        nodes.push((c.rule as u16, c.span.start, c.span.end, c.inner.len()));
        todo.extend(c.inner.iter().rev());
    }
    Some(nodes)
}

} // verus!
