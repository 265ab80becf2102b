//! Comments: a `%` outside strings and escapes starts one, and it runs to the end of its
//! line. The parser skips them; they are put back into the tree as nodes of their own, so
//! that the layout keeps them where they were written.

use vstd::prelude::*;
use crate::cst::{copy_cst, trees, Cst, Span, Tree};
use crate::source::CstText;
use crate::layout::comment_text;
use crate::rule::Rule;
use crate::text::trim_end_of;
use std::collections::VecDeque;

verus! {

/// A comment of the source: its range, from the `%` to the end of its line.
#[derive(Clone, Copy, Debug)]
pub struct Comment {
    pub span: Span,
}

/// The node of a comment over the given range.
pub open spec fn comment_node(p: nat, q: nat) -> Tree {
    Tree { rule: Rule::comments, start: p, end: q, inner: Seq::empty() }
}

/// The first position from `p` on that holds a line break, or `b` (or the end of the text)
/// where there is none before it.
pub open spec fn line_end(text: Seq<char>, p: nat, b: nat) -> nat
    decreases b - p,
{
    if p >= b || p >= text.len() || text[p as int] == '\n' {
        p
    } else {
        line_end(text, p + 1, b)
    }
}

pub proof fn lemma_line_end(text: Seq<char>, p: nat, b: nat)
    ensures
        line_end(text, p, b) >= p,
        p <= b ==> line_end(text, p, b) <= b,
    decreases b - p,
{
    if !(p >= b || p >= text.len() || text[p as int] == '\n') {
        lemma_line_end(text, p + 1, b);
    }
}

/// The comments that start between positions `p` and `b`.
pub open spec fn comments_from(text: Seq<char>, p: nat, b: nat) -> Seq<Tree>
    decreases b - p,
{
    if p >= b || p >= text.len() {
        Seq::empty()
    } else if text[p as int] == '%' {
        let q = line_end(text, p + 1, b);
        proof {
            lemma_line_end(text, p + 1, b);
        }
        seq![comment_node(p, q)] + comments_from(text, q, b)
    } else {
        comments_from(text, p + 1, b)
    }
}

/// Rules of nodes whose text may hold a `%` that starts no comment.
pub open spec fn keeps_percent(r: Rule) -> bool {
    ||| r == Rule::const_string
    ||| r == Rule::horizontal_escaped_char
    ||| r == Rule::math_unary
    ||| r == Rule::comments
}

/// Where the stretch of a node's own text before child `k` starts.
pub open spec fn gap_start(t: Tree, k: int) -> nat {
    if k <= 0 {
        t.start
    } else {
        t.inner[k - 1].end
    }
}

/// Where the stretch of a node's own text before child `k` ends (the node's end, for `k` past
/// the last child).
pub open spec fn gap_end(t: Tree, k: int) -> nat {
    if k < t.inner.len() {
        t.inner[k].start
    } else {
        t.end
    }
}

/// The tree with a comment node for each comment, put among the children of the node in whose
/// own text (outside its children) the comment stands, in the order of the text.
pub open spec fn with_comments(text: Seq<char>, t: Tree) -> Tree
    decreases t, 1nat, 0nat,
{
    if keeps_percent(t.rule) {
        t
    } else {
        let n = t.inner.len();
        Tree {
            inner: kids_with_comments(text, t, n) + comments_from(text, gap_start(t, n as int), t.end),
            ..t
        }
    }
}

/// The first `k` children with comments, each preceded by the comments before it.
pub open spec fn kids_with_comments(text: Seq<char>, t: Tree, k: nat) -> Seq<Tree>
    decreases t, 0nat, k,
{
    if k == 0 || k > t.inner.len() {
        Seq::empty()
    } else {
        kids_with_comments(text, t, (k - 1) as nat) + comments_from(
            text,
            gap_start(t, k - 1),
            gap_end(t, k - 1),
        ) + seq![with_comments(text, t.inner[k - 1])]
    }
}

/// The first position from `p` on that holds a line break, within `b`.
pub fn line_end_of(text: &Vec<char>, p: usize, b: usize) -> (q: usize)
    ensures
        q == line_end(text@, p as nat, b as nat),
{
    let mut q = p;
    while q < b && q < text.len() && text[q] != '\n'
        invariant
            p <= q,
            line_end(text@, p as nat, b as nat) == line_end(text@, q as nat, b as nat),
        decreases b - q,
    {
        q = q + 1;
    }
    q
}

/// Appends the nodes of the comments that start between positions `a` and `b`.
pub fn push_comments(text: &Vec<char>, a: usize, b: usize, out: &mut Vec<Cst>)
    ensures
        trees(final(out)@) == trees(old(out)@) + comments_from(text@, a as nat, b as nat),
{
    let ghost base = trees(out@);
    let mut p = a;
    while p < b && p < text.len()
        invariant
            trees(out@) + comments_from(text@, p as nat, b as nat) == base + comments_from(
                text@,
                a as nat,
                b as nat,
            ),
        decreases b - p,
    {
        if text[p] == '%' {
            let q = line_end_of(text, p + 1, b);
            proof {
                lemma_line_end(text@, (p + 1) as nat, b as nat);
            }
            let ghost before = trees(out@);
            let c = Cst { rule: Rule::comments, span: Span { start: p, end: q }, inner: Vec::new() };
            assert(c.tree().inner =~= Seq::<Tree>::empty());
            assert(c.tree() == comment_node(p as nat, q as nat));
            out.push(c);
            assert(trees(out@) =~= before.push(c.tree()));
            assert(before + comments_from(text@, p as nat, b as nat) =~= trees(out@) + comments_from(
                text@,
                q as nat,
                b as nat,
            ));
            p = q;
        } else {
            p = p + 1;
        }
    }
    assert(comments_from(text@, p as nat, b as nat) =~= Seq::<Tree>::empty());
    assert(trees(out@) =~= trees(out@) + comments_from(text@, p as nat, b as nat));
}

/// Puts a node for each comment into the tree.
pub fn insert_comments(text: &Vec<char>, c: &Cst) -> (r: Cst)
    ensures
        r.tree() == with_comments(text@, c.tree()),
    decreases c,
{
    let ghost t = c.tree();
    let r = c.rule;
    if r == Rule::const_string || r == Rule::horizontal_escaped_char || r == Rule::math_unary || r
        == Rule::comments {
        return copy_cst(c);
    }
    let mut kids: Vec<Cst> = Vec::new();
    let mut i: usize = 0;
    while i < c.inner.len()
        invariant
            t == c.tree(),
            i <= c.inner.len(),
            !keeps_percent(t.rule),
            trees(kids@) == kids_with_comments(text@, t, i as nat),
        decreases c.inner.len() - i,
    {
        assert(t.inner[i as int] == c.inner@[i as int].tree());
        let a = if i == 0 {
            c.span.start
        } else {
            assert(t.inner[i - 1] == c.inner@[i - 1].tree());
            c.inner[i - 1].span.end
        };
        let b = c.inner[i].span.start;
        push_comments(text, a, b, &mut kids);
        let ghost mid = trees(kids@);
        let k = insert_comments(text, &c.inner[i]);
        kids.push(k);
        assert(trees(kids@) =~= mid.push(k.tree()));
        assert(kids_with_comments(text@, t, (i + 1) as nat) =~= mid + seq![k.tree()]);
        i = i + 1;
    }
    let a = if c.inner.len() == 0 {
        c.span.start
    } else {
        assert(t.inner[c.inner.len() - 1] == c.inner@[c.inner.len() - 1].tree());
        c.inner[c.inner.len() - 1].span.end
    };
    push_comments(text, a, c.span.end, &mut kids);
    let out = Cst { rule: r, span: c.span, inner: kids };
    assert(out.tree().inner =~= trees(kids@));
    out
}

/// The ranges of the comment nodes of a tree, in the order of the text.
pub open spec fn comment_spans(t: Tree) -> Seq<(nat, nat)>
    decreases t, 1nat, 0nat,
{
    if t.rule == Rule::comments {
        seq![(t.start, t.end)]
    } else {
        kid_comment_spans(t, t.inner.len())
    }
}

/// The ranges of the comment nodes among the first `k` children.
pub open spec fn kid_comment_spans(t: Tree, k: nat) -> Seq<(nat, nat)>
    decreases t, 0nat, k,
{
    if k == 0 || k > t.inner.len() {
        Seq::empty()
    } else {
        kid_comment_spans(t, (k - 1) as nat) + comment_spans(t.inner[k - 1])
    }
}

/// The ranges of a list of comments.
pub open spec fn spans_of(v: Seq<Comment>) -> Seq<(nat, nat)> {
    v.map_values(|x: Comment| (x.span.start as nat, x.span.end as nat))
}

fn collect_comments(c: &Cst, out: &mut VecDeque<Comment>)
    ensures
        spans_of(final(out)@) == spans_of(old(out)@) + comment_spans(c.tree()),
    decreases c,
{
    let ghost t = c.tree();
    if c.rule == Rule::comments {
        let ghost before = spans_of(out@);
        out.push_back(Comment { span: c.span });
        assert(spans_of(out@) =~= before + seq![(t.start, t.end)]);
        return;
    }
    let ghost base = spans_of(out@);
    let mut i: usize = 0;
    while i < c.inner.len()
        invariant
            t == c.tree(),
            t.rule != Rule::comments,
            i <= c.inner.len(),
            spans_of(out@) == base + kid_comment_spans(t, i as nat),
        decreases c.inner.len() - i,
    {
        assert(t.inner[i as int] == c.inner@[i as int].tree());
        let ghost mid = spans_of(out@);
        collect_comments(&c.inner[i], out);
        assert(base + kid_comment_spans(t, (i + 1) as nat) =~= mid + comment_spans(t.inner[i as int]));
        i = i + 1;
    }
}

/// The comments of a parsed text, in the order of the text.
pub fn get_comments(csttext: &CstText) -> (r: VecDeque<Comment>)
    ensures
        spans_of(r@) == comment_spans(csttext.cst.tree()),
{
    let mut r: VecDeque<Comment> = VecDeque::new();
    collect_comments(&csttext.cst, &mut r);
    assert(spans_of(Seq::<Comment>::empty()) =~= Seq::<(nat, nat)>::empty());
    assert(spans_of(r@) =~= comment_spans(csttext.cst.tree()));
    r
}

/// A comment as written out: its text without the white space at its end.
pub fn to_comment_string(s: &Vec<char>) -> (r: Vec<char>)
    ensures
        r@ == comment_text(s@),
{
    trim_end_of(s)
}

} // verus!
