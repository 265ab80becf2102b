//! Concrete syntax trees with spans counted in characters.

use vstd::prelude::*;
use crate::parse::ParsedNode;
use crate::rule::{rule_from_code, rule_of_code, Rule};

verus! {

/// A range of character positions in the source text, end excluded.
#[derive(Clone, Copy, PartialEq, Eq, Structural, Debug)]
pub struct Span {
    pub start: usize,
    pub end: usize,
}

/// A node of a concrete syntax tree: its rule, the source range it covers, and its children
/// from left to right.
#[derive(Debug)]
pub struct Cst {
    pub rule: Rule,
    pub span: Span,
    pub inner: Vec<Cst>,
}

/// The mathematical model of a tree.
pub struct Tree {
    pub rule: Rule,
    pub start: nat,
    pub end: nat,
    pub inner: Seq<Tree>,
}

impl Cst {
    pub open spec fn tree(&self) -> Tree
        decreases self,
    {
        Tree {
            rule: self.rule,
            start: self.span.start as nat,
            end: self.span.end as nat,
            inner: Seq::new(
                self.inner@.len(),
                |i: int|
                    if 0 <= i < self.inner@.len() {
                        self.inner@[i].tree()
                    } else {
                        Tree { rule: Rule::misc, start: 0, end: 0, inner: Seq::empty() }
                    },
            ),
        }
    }
}

pub open spec fn trees(v: Seq<Cst>) -> Seq<Tree> {
    v.map_values(|c: Cst| c.tree())
}

/// Bytes that UTF-8 takes for a character.
pub open spec fn utf8_len(c: char) -> nat {
    if (c as u32) < 0x80 {
        1
    } else if (c as u32) < 0x800 {
        2
    } else if (c as u32) < 0x10000 {
        3
    } else {
        4
    }
}

/// Byte offset, in UTF-8, of the character at position `i`.
pub open spec fn byte_offset(s: Seq<char>, i: int) -> nat
    decreases i,
{
    if i <= 0 {
        0
    } else {
        byte_offset(s, i - 1) + utf8_len(s[i - 1])
    }
}

/// The character position that a byte offset falls on, if it falls on one.
pub open spec fn char_pos(s: Seq<char>, b: int) -> Option<nat> {
    if exists|i: int| 0 <= i <= s.len() && byte_offset(s, i) == b {
        Some((choose|i: int| 0 <= i <= s.len() && byte_offset(s, i) == b) as nat)
    } else {
        None
    }
}

pub proof fn lemma_byte_offset_increasing(s: Seq<char>, i: int, j: int)
    requires
        0 <= i < j,
    ensures
        byte_offset(s, i) < byte_offset(s, j),
    decreases j,
{
    if i < j - 1 {
        lemma_byte_offset_increasing(s, i, j - 1);
    }
}

/// The byte offset of every character position, end included; `None` when the text is too
/// long for them to be counted in a `usize`.
pub fn byte_offsets(s: &Vec<char>) -> (r: Option<Vec<usize>>)
    ensures
        match r {
            Some(o) => o@.len() == s@.len() + 1 && forall|i: int|
                0 <= i <= s@.len() ==> #[trigger] o@[i] == byte_offset(s@, i),
            None => byte_offset(s@, s@.len() as int) > usize::MAX,
        },
{
    let mut o: Vec<usize> = Vec::new();
    o.push(0);
    let mut acc: usize = 0;
    let mut i: usize = 0;
    while i < s.len()
        invariant
            i <= s.len(),
            o@.len() == i + 1,
            acc == byte_offset(s@, i as int),
            forall|j: int| 0 <= j <= i ==> #[trigger] o@[j] == byte_offset(s@, j),
        decreases s.len() - i,
    {
        let c = s[i];
        let w: usize = if (c as u32) < 0x80 {
            1
        } else if (c as u32) < 0x800 {
            2
        } else if (c as u32) < 0x10000 {
            3
        } else {
            4
        };
        assert(w == utf8_len(s@[i as int]));
        if acc > usize::MAX - w {
            proof {
                assert forall|k: int| i + 1 <= k <= s@.len() implies byte_offset(s@, k)
                    > usize::MAX by {
                    if k > i + 1 {
                        lemma_byte_offset_increasing(s@, i + 1, k);
                    }
                }
            }
            return None;
        }
        acc = acc + w;
        o.push(acc);
        i = i + 1;
    }
    Some(o)
}

/// The byte offset of a position depends only on the characters before it.
pub proof fn lemma_byte_offset_prefix(s: Seq<char>, n: int)
    requires
        0 <= n <= s.len(),
    ensures
        byte_offset(s.subrange(0, n), n) == byte_offset(s, n),
    decreases n,
{
    if n > 0 {
        let t = s.subrange(0, n);
        assert(t.subrange(0, n - 1) =~= s.subrange(0, n - 1));
        lemma_byte_offset_prefix(s, n - 1);
        lemma_byte_offset_prefix(t, n - 1);
    }
}

/// The byte offset of character position `i`, counted wide enough not to overflow.
pub fn byte_offset_wide(s: &Vec<char>, i: usize) -> (r: u128)
    requires
        i <= s@.len(),
    ensures
        r == byte_offset(s@, i as int),
{
    let mut acc: u128 = 0;
    let mut k: usize = 0;
    while k < i
        invariant
            k <= i <= s@.len(),
            acc == byte_offset(s@, k as int),
            acc <= 4 * k,
        decreases i - k,
    {
        let c = s[k];
        let w: u128 = if (c as u32) < 0x80 {
            1
        } else if (c as u32) < 0x800 {
            2
        } else if (c as u32) < 0x10000 {
            3
        } else {
            4
        };
        acc = acc + w;
        k = k + 1;
    }
    acc
}

/// Finds the character position of byte offset `b` in the table of offsets.
pub fn char_index(s: &Vec<char>, o: &Vec<usize>, b: usize) -> (r: Option<usize>)
    requires
        o@.len() == s@.len() + 1,
        forall|i: int| 0 <= i <= s@.len() ==> #[trigger] o@[i] == byte_offset(s@, i),
    ensures
        match r {
            Some(p) => char_pos(s@, b as int) == Some(p as nat),
            None => char_pos(s@, b as int) is None,
        },
{
    let mut lo: usize = 0;
    let mut hi: usize = o.len();
    while lo < hi
        invariant
            o@.len() == s@.len() + 1,
            forall|i: int| 0 <= i <= s@.len() ==> #[trigger] o@[i] == byte_offset(s@, i),
            0 <= lo <= hi <= o@.len(),
            forall|j: int| 0 <= j < lo ==> #[trigger] o@[j] < b,
            forall|j: int| hi <= j < o@.len() ==> #[trigger] o@[j] > b,
        decreases hi - lo,
    {
        let mid = lo + (hi - lo) / 2;
        if o[mid] == b {
            proof {
                let k = choose|k: int| 0 <= k <= s@.len() && byte_offset(s@, k) == b;
                if k < mid {
                    lemma_byte_offset_increasing(s@, k, mid as int);
                } else if k > mid {
                    lemma_byte_offset_increasing(s@, mid as int, k);
                }
            }
            return Some(mid);
        } else if o[mid] < b {
            proof {
                assert forall|j: int| 0 <= j < mid + 1 implies #[trigger] o@[j] < b by {
                    if j < mid {
                        lemma_byte_offset_increasing(s@, j, mid as int);
                    }
                }
            }
            lo = mid + 1;
        } else {
            proof {
                assert forall|j: int| mid <= j < o@.len() implies #[trigger] o@[j] > b by {
                    if j > mid {
                        lemma_byte_offset_increasing(s@, mid as int, j);
                    }
                }
            }
            hi = mid;
        }
    }
    proof {
        assert forall|i: int| 0 <= i <= s@.len() implies byte_offset(s@, i) != b by {
            assert(o@[i] == byte_offset(s@, i));
        }
    }
    None
}

/// The node that a parsed entry stands for, over the given children.
pub open spec fn node_of(s: Seq<char>, e: ParsedNode, kids: Seq<Tree>) -> Option<Tree> {
    match (rule_of_code(e.0), char_pos(s, e.1 as int), char_pos(s, e.2 as int)) {
        (Some(rule), Some(st), Some(en)) => Some(Tree { rule, start: st, end: en, inner: kids }),
        _ => None,
    }
}

/// The trees that the entries from `n` on stand for, read from the last entry back: each
/// entry takes as its children as many of the trees built so far as it has children, the one
/// built last as its first child.
pub open spec fn build_from(nodes: Seq<ParsedNode>, s: Seq<char>, n: int) -> Option<Seq<Tree>>
    decreases nodes.len() - n,
{
    if n < 0 || n >= nodes.len() {
        Some(Seq::empty())
    } else {
        match build_from(nodes, s, n + 1) {
            Some(st) => {
                let k = nodes[n].3 as int;
                if k > st.len() {
                    None
                } else {
                    match node_of(s, nodes[n], st.skip(st.len() - k).reverse()) {
                        Some(t) => Some(st.take(st.len() - k).push(t)),
                        None => None,
                    }
                }
            },
            None => None,
        }
    }
}

/// The tree that a pre-order list of parsed entries stands for.
pub open spec fn tree_of(nodes: Seq<ParsedNode>, s: Seq<char>) -> Option<Tree> {
    match build_from(nodes, s, 0) {
        Some(st) => if st.len() == 1 {
            Some(st[0])
        } else {
            None
        },
        None => None,
    }
}

/// Once the entries from `n` on stand for no trees, neither do those from any earlier `m`.
pub proof fn lemma_build_none(nodes: Seq<ParsedNode>, s: Seq<char>, m: int, n: int)
    requires
        0 <= m <= n < nodes.len(),
        build_from(nodes, s, n) is None,
    ensures
        build_from(nodes, s, m) is None,
    decreases n - m,
{
    if m < n {
        lemma_build_none(nodes, s, m + 1, n);
    }
}

/// Builds the tree of a pre-order list of parsed entries, with spans turned from bytes to
/// characters.
pub fn build_tree(nodes: &Vec<ParsedNode>, s: &Vec<char>, o: &Vec<usize>) -> (r: Option<Cst>)
    requires
        o@.len() == s@.len() + 1,
        forall|i: int| 0 <= i <= s@.len() ==> #[trigger] o@[i] == byte_offset(s@, i),
    ensures
        match r {
            Some(c) => tree_of(nodes@, s@) == Some(c.tree()),
            None => tree_of(nodes@, s@) is None,
        },
{
    let mut stack: Vec<Cst> = Vec::new();
    let mut n: usize = nodes.len();
    while n > 0
        invariant
            n <= nodes.len(),
            o@.len() == s@.len() + 1,
            forall|i: int| 0 <= i <= s@.len() ==> #[trigger] o@[i] == byte_offset(s@, i),
            build_from(nodes@, s@, n as int) == Some(trees(stack@)),
        decreases n,
    {
        n = n - 1;
        let (code, sb, eb, k) = nodes[n];
        let ghost st = trees(stack@);
        if k > stack.len() {
            proof {
                lemma_build_none(nodes@, s@, 0, n as int);
            }
            return None;
        }
        let mut kids: Vec<Cst> = Vec::new();
        let mut m: usize = 0;
        while m < k
            invariant
                k <= st.len(),
                m <= k,
                trees(stack@) == st.take(st.len() - m),
                trees(kids@) == st.skip(st.len() - k).reverse().take(m as int),
            decreases k - m,
        {
            let ghost before = trees(stack@);
            let ghost sv = stack@;
            assert(before[before.len() - 1] == sv[sv.len() - 1].tree());
            assert(before[before.len() - 1] == st[st.len() - m - 1]);
            let c = stack.pop().unwrap();
            let ghost kb = trees(kids@);
            kids.push(c);
            assert(trees(kids@) =~= kb.push(c.tree()));
            assert(trees(stack@) =~= before.drop_last());
            assert(c.tree() == st[st.len() - m - 1]);
            assert(st.skip(st.len() - k).reverse().take(m + 1) =~= st.skip(st.len() - k).reverse().take(
                m as int,
            ).push(st[st.len() - m - 1]));
            assert(st.take(st.len() - m).drop_last() =~= st.take(st.len() - m - 1));
            m = m + 1;
        }
        assert(st.skip(st.len() - k).reverse().take(k as int) =~= st.skip(st.len() - k).reverse());
        let rule = match rule_from_code(code) {
            Some(r) => r,
            None => {
                proof {
                    lemma_build_none(nodes@, s@, 0, n as int);
                }
                return None;
            },
        };
        let start = match char_index(s, o, sb) {
            Some(p) => p,
            None => {
                proof {
                    lemma_build_none(nodes@, s@, 0, n as int);
                }
                return None;
            },
        };
        let end = match char_index(s, o, eb) {
            Some(p) => p,
            None => {
                proof {
                    lemma_build_none(nodes@, s@, 0, n as int);
                }
                return None;
            },
        };
        let node = Cst { rule, span: Span { start, end }, inner: kids };
        assert(node.tree().inner =~= trees(kids@));
        assert(node.tree() == Tree {
            rule,
            start: start as nat,
            end: end as nat,
            inner: trees(kids@),
        });
        let ghost sb0 = trees(stack@);
        stack.push(node);
        assert(trees(stack@) =~= sb0.push(node.tree()));
    }
    if stack.len() == 1 {
        stack.pop()
    } else {
        None
    }
}

/// Rules of nodes that the parser makes of incomplete input and that have no layout.
pub open spec fn is_incomplete(r: Rule) -> bool {
    ||| r == Rule::dummy_header
    ||| r == Rule::dummy_sig_stmt
    ||| r == Rule::dummy_stmt
    ||| r == Rule::dummy_block_cmd_incomplete
    ||| r == Rule::dummy_modvar_incomplete
}

/// A tree that can be laid out over a text of `len` characters: spans lie in the text, no
/// node is of incomplete input, text arguments and bullets are not empty, and type
/// expressions and module statements have children.
pub open spec fn wf(t: Tree, len: nat) -> bool
    decreases t,
{
    &&& t.start <= t.end <= len
    &&& !is_incomplete(t.rule)
    &&& (t.rule == Rule::cmd_text_arg || t.rule == Rule::horizontal_text || t.rule
        == Rule::horizontal_bullet_star) ==> t.start < t.end
    &&& (t.rule == Rule::type_expr || t.rule == Rule::module_stmt) ==> t.inner.len() > 0
    &&& forall|i: int| 0 <= i < t.inner.len() ==> wf(#[trigger] t.inner[i], len)
}

/// Number of levels of the tree.
pub open spec fn height(t: Tree) -> nat
    decreases t, 1nat, 0nat,
{
    1 + kids_height(t, t.inner.len())
}

/// Largest height among the first `i` children.
pub open spec fn kids_height(t: Tree, i: nat) -> nat
    decreases t, 0nat, i,
{
    if i == 0 || i > t.inner.len() {
        0
    } else {
        let m = kids_height(t, (i - 1) as nat);
        let h = height(t.inner[i - 1]);
        if m >= h {
            m
        } else {
            h
        }
    }
}

pub proof fn lemma_kids_height(t: Tree, i: nat, j: int)
    requires
        i <= t.inner.len(),
        0 <= j < i,
    ensures
        height(t.inner[j]) <= kids_height(t, i),
    decreases i,
{
    if j < i - 1 {
        lemma_kids_height(t, (i - 1) as nat, j);
    }
}

/// A child is lower than its parent.
pub proof fn lemma_child_height(t: Tree, j: int)
    requires
        0 <= j < t.inner.len(),
    ensures
        height(t.inner[j]) < height(t),
{
    lemma_kids_height(t, t.inner.len(), j);
}

/// Checks `wf`.
pub fn check_wf(c: &Cst, len: usize) -> (r: bool)
    ensures
        r == wf(c.tree(), len as nat),
    decreases c,
{
    let r = c.rule;
    if !(c.span.start <= c.span.end && c.span.end <= len) {
        return false;
    }
    if r == Rule::dummy_header || r == Rule::dummy_sig_stmt || r == Rule::dummy_stmt || r
        == Rule::dummy_block_cmd_incomplete || r == Rule::dummy_modvar_incomplete {
        return false;
    }
    if (r == Rule::cmd_text_arg || r == Rule::horizontal_text || r == Rule::horizontal_bullet_star)
        && c.span.start == c.span.end {
        return false;
    }
    if (r == Rule::type_expr || r == Rule::module_stmt) && c.inner.len() == 0 {
        return false;
    }
    let mut i: usize = 0;
    while i < c.inner.len()
        invariant
            i <= c.inner.len(),
            forall|j: int| 0 <= j < i ==> wf(#[trigger] c.tree().inner[j], len as nat),
        decreases c.inner.len() - i,
    {
        assert(c.tree().inner[i as int] == c.inner@[i as int].tree());
        if !check_wf(&c.inner[i], len) {
            return false;
        }
        i = i + 1;
    }
    true
}

/// The height of the tree, or `usize::MAX` where it is at least that.
pub fn tree_height(c: &Cst) -> (r: usize)
    ensures
        r == height(c.tree()) || (r == usize::MAX && height(c.tree()) >= usize::MAX),
    decreases c,
{
    let ghost t = c.tree();
    let mut m: usize = 0;
    let mut i: usize = 0;
    while i < c.inner.len()
        invariant
            t == c.tree(),
            i <= c.inner.len(),
            m == kids_height(t, i as nat) || (m == usize::MAX && kids_height(t, i as nat)
                >= usize::MAX),
        decreases c.inner.len() - i,
    {
        assert(t.inner[i as int] == c.inner@[i as int].tree());
        let h = tree_height(&c.inner[i]);
        if h > m {
            m = h;
        }
        i = i + 1;
    }
    if m == usize::MAX {
        usize::MAX
    } else {
        m + 1
    }
}

/// The tree with the branches of each conditional put under nodes of their own: the second
/// and third children of an `if` become a `then` node and an `else` node, each with the span
/// of the expression it holds.
pub open spec fn branches(t: Tree) -> Tree
    decreases t,
{
    let kids = Seq::new(
        t.inner.len(),
        |i: int|
            if 0 <= i < t.inner.len() {
                branches(t.inner[i])
            } else {
                t
            },
    );
    if t.rule == Rule::ctrl_if && t.inner.len() == 3 {
        Tree {
            inner: seq![
                kids[0],
                Tree { rule: Rule::ctrl_then, start: t.inner[1].start, end: t.inner[1].end, inner: seq![kids[1]] },
                Tree { rule: Rule::ctrl_else, start: t.inner[2].start, end: t.inner[2].end, inner: seq![kids[2]] },
            ],
            ..t
        }
    } else {
        Tree { inner: kids, ..t }
    }
}

/// A node with the given children.
fn node(rule: Rule, span: Span, inner: Vec<Cst>) -> (r: Cst)
    ensures
        r.tree() == (Tree { rule, start: span.start as nat, end: span.end as nat, inner: trees(inner@) }),
{
    let r = Cst { rule, span, inner };
    assert(r.tree().inner =~= trees(inner@));
    r
}

/// Puts the branches of each conditional under nodes of their own.
pub fn split_branches(c: &Cst) -> (r: Cst)
    ensures
        r.tree() == branches(c.tree()),
    decreases c,
{
    let ghost t = c.tree();
    let mut out: Vec<Cst> = Vec::new();
    let mut i: usize = 0;
    while i < c.inner.len()
        invariant
            t == c.tree(),
            i <= c.inner.len(),
            out@.len() == i,
            forall|j: int| 0 <= j < i ==> (#[trigger] out@[j]).tree() == branches(t.inner[j]),
        decreases c.inner.len() - i,
    {
        assert(t.inner[i as int] == c.inner@[i as int].tree());
        let k = split_branches(&c.inner[i]);
        out.push(k);
        i = i + 1;
    }
    if c.rule == Rule::ctrl_if && out.len() == 3 {
        assert(t.inner[1] == c.inner@[1].tree());
        assert(t.inner[2] == c.inner@[2].tree());
        let s1 = c.inner[1].span;
        let s2 = c.inner[2].span;
        let e = out.pop().unwrap();
        let th = out.pop().unwrap();
        let cond = out.pop().unwrap();
        let mut tv: Vec<Cst> = Vec::new();
        tv.push(th);
        let mut ev: Vec<Cst> = Vec::new();
        ev.push(e);
        assert(trees(tv@) =~= seq![branches(t.inner[1])]);
        assert(trees(ev@) =~= seq![branches(t.inner[2])]);
        let then_node = node(Rule::ctrl_then, s1, tv);
        let else_node = node(Rule::ctrl_else, s2, ev);
        let mut all: Vec<Cst> = Vec::new();
        all.push(cond);
        all.push(then_node);
        all.push(else_node);
        assert(trees(all@) =~= branches(t).inner);
        node(c.rule, c.span, all)
    } else {
        assert(trees(out@) =~= branches(t).inner);
        node(c.rule, c.span, out)
    }
}

/// A copy of a tree.
pub fn copy_cst(c: &Cst) -> (r: Cst)
    ensures
        r.tree() == c.tree(),
    decreases c,
{
    let ghost t = c.tree();
    let mut kids: Vec<Cst> = Vec::new();
    let mut i: usize = 0;
    while i < c.inner.len()
        invariant
            t == c.tree(),
            i <= c.inner.len(),
            kids@.len() == i,
            forall|j: int| 0 <= j < i ==> (#[trigger] kids@[j]).tree() == t.inner[j],
        decreases c.inner.len() - i,
    {
        assert(t.inner[i as int] == c.inner@[i as int].tree());
        kids.push(copy_cst(&c.inner[i]));
        i = i + 1;
    }
    let r = node(c.rule, c.span, kids);
    assert(trees(kids@) =~= t.inner);
    r
}

} // verus!
