//! A source text made ready for layout: parsed, with its tree in character positions, the
//! branches of its conditionals and its comments in the tree, and where its lines start.

use vstd::prelude::*;
use crate::comment::{insert_comments, with_comments};
use crate::cst::{lemma_byte_offset_prefix, branches, build_tree, byte_offset, byte_offsets, split_branches, tree_of, Cst, Tree};
use crate::parse::{parse_program, parsed_program, ParsedNode};
use crate::text::chars_of;

verus! {

/// A source text, where its lines start (as byte offsets), and its tree (spans in character
/// positions).
pub struct CstText {
    pub text: String,
    pub lines: Vec<usize>,
    pub cst: Cst,
}

/// Where the lines of a text start, as byte offsets in UTF-8: offset 0 and each offset just
/// after a line break.
pub open spec fn line_starts(text: Seq<char>) -> Seq<usize>
    decreases text.len(),
{
    if text.len() == 0 {
        seq![0usize]
    } else if text.last() == '\n' {
        line_starts(text.drop_last()).push(byte_offset(text, text.len() as int) as usize)
    } else {
        line_starts(text.drop_last())
    }
}

/// Where the lines of a text start, given the byte offset of every character position.
pub fn line_starts_of(text: &Vec<char>, offsets: &Vec<usize>) -> (r: Vec<usize>)
    requires
        offsets@.len() == text@.len() + 1,
        forall|i: int| 0 <= i <= text@.len() ==> #[trigger] offsets@[i] == byte_offset(text@, i),
    ensures
        r@ == line_starts(text@),
{
    let mut r: Vec<usize> = Vec::new();
    r.push(0);
    let mut i: usize = 0;
    assert(text@.subrange(0, 0) =~= Seq::<char>::empty());
    assert(r@ =~= line_starts(text@.subrange(0, 0)));
    while i < text.len()
        invariant
            i <= text.len(),
            offsets@.len() == text@.len() + 1,
            forall|j: int| 0 <= j <= text@.len() ==> #[trigger] offsets@[j] == byte_offset(text@, j),
            r@ == line_starts(text@.subrange(0, i as int)),
        decreases text.len() - i,
    {
        let ghost pre = text@.subrange(0, i + 1);
        assert(pre.drop_last() =~= text@.subrange(0, i as int));
        if text[i] == '\n' {
            proof {
                lemma_byte_offset_prefix(text@, (i + 1) as int);
            }
            assert(offsets@[i + 1] == byte_offset(text@, i + 1));
            r.push(offsets[i + 1]);
        }
        i = i + 1;
    }
    assert(text@.subrange(0, text.len() as int) =~= text@);
    r
}

/// The tree that parsed nodes stand for over a text, made ready for layout; `None` when the
/// nodes make no tree over the text, or the text is too long for its byte offsets to be
/// counted.
pub open spec fn source_tree(text: Seq<char>, nodes: Seq<ParsedNode>) -> Option<Tree> {
    if byte_offset(text, text.len() as int) > usize::MAX {
        None
    } else {
        match tree_of(nodes, text) {
            Some(t) => Some(with_comments(text, branches(t))),
            None => None,
        }
    }
}

/// What a list of parsed nodes, if there is one, makes of a text.
pub open spec fn source_of(text: Seq<char>, nodes: Option<Seq<ParsedNode>>) -> Option<Tree> {
    match nodes {
        Some(ns) => source_tree(text, ns),
        None => None,
    }
}

pub open spec fn node_list(nodes: Option<Vec<ParsedNode>>) -> Option<Seq<ParsedNode>> {
    match nodes {
        Some(v) => Some(v@),
        None => None,
    }
}

impl CstText {
    /// The text made ready for layout over the nodes that the parser gave for it.
    pub fn from_nodes(text: &str, nodes: Option<Vec<ParsedNode>>) -> (r: Option<CstText>)
        ensures
            match r {
                Some(c) => {
                    &&& c.text@ == text@
                    &&& c.lines@ == line_starts(text@)
                    &&& source_of(text@, node_list(nodes)) == Some(c.cst.tree())
                },
                None => source_of(text@, node_list(nodes)) is None,
            },
    {
        let nodes = match nodes {
            Some(v) => v,
            None => return None,
        };
        let chars = chars_of(text);
        let offsets = match byte_offsets(&chars) {
            Some(o) => o,
            None => return None,
        };
        assert(offsets@[chars@.len() as int] == byte_offset(chars@, chars@.len() as int));
        let tree = match build_tree(&nodes, &chars, &offsets) {
            Some(c) => c,
            None => return None,
        };
        let cst = insert_comments(&chars, &split_branches(&tree));
        let lines = line_starts_of(&chars, &offsets);
        Some(CstText { text: text.to_owned(), lines, cst })
    }

    /// Parses a text and makes it ready for layout; `None` when it does not parse.
    pub fn parse(text: &str) -> (r: Option<CstText>)
        ensures
            match r {
                Some(c) => {
                    &&& c.text@ == text@
                    &&& c.lines@ == line_starts(text@)
                    &&& source_of(text@, parsed_program(text@)) == Some(c.cst.tree())
                },
                None => source_of(text@, parsed_program(text@)) is None,
            },
    {
        let nodes = parse_program(text);
        CstText::from_nodes(text, nodes)
    }
}

} // verus!
