//! Laws of the layout: what the text written for a node keeps of the node, stated over the
//! texts written for its children and over its source text.

use vstd::prelude::*;
use crate::cst::Tree;
use crate::layout::{
    acc_of, allows_inline_multiline, app_broken, append_indented, binding_prefix_width, fold,
    init, inner, is_binding, join_rendered, law_append_indented, line_fits, newline, render,
    rule_after, rule_before, self_text, should_break_assignment, step, Acc, Layout,
};
use crate::rule::Rule;
use crate::text::{has_prefix, has_suffix, is_white, trim_start};

verus! {

/// A command written with a closing `;` in the source keeps that `;` at its end.
pub proof fn law_command_keeps_semicolon(l: Layout, text: Seq<char>, t: Tree, depth: nat)
    requires
        t.rule == Rule::inline_cmd || t.rule == Rule::block_cmd,
        has_suffix(self_text(text, t), ";"@),
    ensures
        has_suffix(render(l, text, t, depth), ";"@),
{
    let out = crate::layout::inner(l, text, t, depth);
    let r = out + ";"@;
    assert(render(l, text, t, depth) == r);
    assert(r.subrange(r.len() - ";"@.len(), r.len() as int) =~= ";"@);
}

/// A subscript is written after `_`, and one written in braces keeps its braces: it is written
/// `_{`, then the layout of its contents, then `}`.
pub proof fn law_subscript_braces(l: Layout, text: Seq<char>, t: Tree, depth: nat)
    requires
        t.rule == Rule::math_sub,
    ensures
        has_prefix(render(l, text, t, depth), "_"@),
        has_prefix(self_text(text, t), "{"@) ==> {
            let r = render(l, text, t, depth);
            &&& has_prefix(r, "_{"@)
            &&& has_suffix(r, "}"@)
            &&& r == "_{"@ + crate::layout::inner(l, text, t, depth) + "}"@
        },
{
    reveal_strlit("_");
    reveal_strlit("_{");
    let out = crate::layout::inner(l, text, t, depth);
    let r = render(l, text, t, depth);
    if has_prefix(self_text(text, t), "{"@) {
        assert(r == "_{"@ + out + "}"@);
        assert(r.subrange(0, 2) =~= "_{"@);
        assert(r.subrange(0, 1) =~= "_"@);
        assert(r.subrange(r.len() - "}"@.len(), r.len() as int) =~= "}"@);
    } else {
        assert(r == "_"@ + out);
        assert(r.subrange(0, 1) =~= "_"@);
    }
}

/// A superscript is written after `^`, and one written in braces keeps its braces: it is
/// written `^{`, then the layout of its contents, then `}`.
pub proof fn law_superscript_braces(l: Layout, text: Seq<char>, t: Tree, depth: nat)
    requires
        t.rule == Rule::math_sup,
    ensures
        has_prefix(render(l, text, t, depth), "^"@),
        has_prefix(self_text(text, t), "{"@) ==> {
            let r = render(l, text, t, depth);
            &&& has_prefix(r, "^{"@)
            &&& has_suffix(r, "}"@)
            &&& r == "^{"@ + crate::layout::inner(l, text, t, depth) + "}"@
        },
{
    reveal_strlit("^");
    reveal_strlit("^{");
    let out = crate::layout::inner(l, text, t, depth);
    let r = render(l, text, t, depth);
    if has_prefix(self_text(text, t), "{"@) {
        assert(r == "^{"@ + out + "}"@);
        assert(r.subrange(0, 2) =~= "^{"@);
        assert(r.subrange(0, 1) =~= "^"@);
        assert(r.subrange(r.len() - "}"@.len(), r.len() as int) =~= "}"@);
    } else {
        assert(r == "^"@ + out);
        assert(r.subrange(0, 1) =~= "^"@);
    }
}

/// A cons pattern `head :: tail` is written as the head, ` :: `, and the tail.
pub proof fn law_cons_pattern(l: Layout, text: Seq<char>, t: Tree, depth: nat)
    requires
        t.rule == Rule::pat_cons,
        t.inner.len() == 2,
        t.inner[1].rule == Rule::pat_as,
        render(l, text, t.inner[0], depth).len() > 0,
    ensures
        render(l, text, t, depth) == render(l, text, t.inner[0], depth) + " :: "@ + render(
            l,
            text,
            t.inner[1],
            depth,
        ),
{
    let a0 = fold(l, text, t, depth, 0);
    assert(a0 == init(l, text, t, depth));
    assert(init(l, text, t, depth) == acc_of(Seq::empty()));
    let a1 = fold(l, text, t, depth, 1);
    assert(a1 == step(l, text, t, depth, a0, 0));
    assert(a1.out == render(l, text, t.inner[0], depth));
    let a2 = fold(l, text, t, depth, 2);
    assert(a2 == step(l, text, t, depth, a1, 1));
    assert(a2.out == a1.out + " :: "@ + render(l, text, t.inner[1], depth));
    assert(inner(l, text, t, depth) == a2.out);
}

/// A record of more than one field opens with `(|` and closes with `|)` on a line of its own,
/// indented as deep as the record itself.
pub proof fn law_record_closes_at_its_depth(l: Layout, text: Seq<char>, t: Tree, depth: nat)
    requires
        t.rule == Rule::record || t.rule == Rule::type_record,
        t.inner.len() > 1,
    ensures
        has_prefix(render(l, text, t, depth), "(|"@),
        has_suffix(render(l, text, t, depth), newline(l, depth) + "|)"@),
{
    let out = inner(l, text, t, depth + 1);
    let si = newline(l, depth + 1);
    let ei = newline(l, depth);
    let r = render(l, text, t, depth);
    assert(r == "(|"@ + si + out + ei + "|)"@);
    assert(r.subrange(0, "(|"@.len() as int) =~= "(|"@);
    let suf = ei + "|)"@;
    assert(r.subrange(r.len() - suf.len(), r.len() as int) =~= suf);
}

/// Text that starts with a character that is not white is its own `trim_start`.
pub proof fn lemma_trim_start_unchanged(s: Seq<char>)
    requires
        s.len() > 0,
        !is_white(s[0]),
    ensures
        trim_start(s) == s,
{
    assert(s.skip(0) =~= s);
}

/// When an application is written one argument per line, each argument keeps what was written
/// before it, and an argument that is a record of more than one field closes with `|)` on a
/// line of its own one level deeper than the application: its fields and its closing bracket
/// never sit left of the line it starts on.
pub proof fn law_broken_application_record(l: Layout, text: Seq<char>, t: Tree, d: nat, k: nat)
    requires
        1 <= k < t.inner.len(),
    ensures
        has_prefix(app_broken(l, text, t, d, k + 1), app_broken(l, text, t, d, k)),
        (t.inner[k as int].rule == Rule::record || t.inner[k as int].rule == Rule::type_record)
            && t.inner[k as int].inner.len() > 1 ==> has_suffix(
            app_broken(l, text, t, d, k + 1),
            newline(l, d + 1) + "|)"@,
        ),
{
    let before = app_broken(l, text, t, d, k);
    let arg = t.inner[k as int];
    let r = render(l, text, arg, d + 1);
    assert(app_broken(l, text, t, d, k + 1) == append_indented(l, before, r, d));
    law_append_indented(l, before, r, d);
    if (arg.rule == Rule::record || arg.rule == Rule::type_record) && arg.inner.len() > 1 {
        law_record_closes_at_its_depth(l, text, arg, d + 1);
        reveal_strlit("(|");
        assert(r.subrange(0, 2) =~= "(|"@);
        assert(r[0] == '(');
        lemma_trim_start_unchanged(r);
        let suf = newline(l, d + 1) + "|)"@;
        let res = append_indented(l, before, r, d);
        let prefix = newline(l, d + 1);
        let head = if has_suffix(before, prefix) {
            before
        } else {
            before + prefix
        };
        assert(res == head + r);
        assert(res.subrange(res.len() - suf.len(), res.len() as int) =~= r.subrange(
            r.len() - suf.len(),
            r.len() as int,
        ));
    }
}

/// `p` is a prefix of `p` followed by anything.
pub proof fn lemma_prefix_of_concat(p: Seq<char>, q: Seq<char>)
    ensures
        has_prefix(p + q, p),
{
    assert((p + q).subrange(0, p.len() as int) =~= p);
}

/// A prefix of a prefix is a prefix.
pub proof fn lemma_prefix_trans(a: Seq<char>, b: Seq<char>, c: Seq<char>)
    requires
        has_prefix(a, b),
        has_prefix(b, c),
    ensures
        has_prefix(a, c),
{
    assert(a.subrange(0, c.len() as int) =~= b.subrange(0, c.len() as int));
}

/// Joining an expression onto the current text, on its line or on a new one, keeps the current
/// text at the start.
pub proof fn lemma_join_rendered_prefix(
    l: Layout,
    text: Seq<char>,
    e: Tree,
    current: Seq<char>,
    depth: nat,
    inline_sep: Seq<char>,
    break_sep: Seq<char>,
    extra: nat,
    inline_expr: Seq<char>,
    force: bool,
)
    ensures
        has_prefix(
            join_rendered(l, text, e, current, depth, inline_sep, break_sep, extra, inline_expr, force),
            current,
        ),
{
    let force2 = force || current.contains('\n') || (inline_expr.contains('\n')
        && !allows_inline_multiline(inline_expr));
    if !force2 && line_fits(l, depth, extra, current + inline_sep + inline_expr) {
        assert(current + inline_sep + inline_expr == current + (inline_sep + inline_expr));
        lemma_prefix_of_concat(current, inline_sep + inline_expr);
    } else {
        let c2 = current + break_sep;
        law_append_indented(l, c2, render(l, text, e, depth + 1), depth);
        lemma_prefix_of_concat(current, break_sep);
        lemma_prefix_trans(append_indented(l, c2, render(l, text, e, depth + 1), depth), c2, current);
    }
}

/// Each child joined onto a binding keeps what was written before it.
pub proof fn lemma_binding_step_prefix(l: Layout, text: Seq<char>, t: Tree, d: nat, a: Acc, i: nat)
    requires
        is_binding(t.rule),
        a.out.len() > 0,
    ensures
        has_prefix(step(l, text, t, d, a, i).out, a.out),
{
    let cur = a.out;
    if i < t.inner.len() {
        let c = t.inner[i as int];
        let s = render(l, text, c, d);
        let cr = c.rule;
        let r = step(l, text, t, d, a, i).out;
        if cr == Rule::var || cr == Rule::block_cmd_name {
            assert(r == cur + (" "@ + s));
            lemma_prefix_of_concat(cur, " "@ + s);
        } else if cr == Rule::bin_operator {
            assert(r == cur + (" ("@ + s + ")"@));
            lemma_prefix_of_concat(cur, " ("@ + s + ")"@);
        } else if cr == Rule::type_expr {
            assert(r == cur + (": "@ + s));
            lemma_prefix_of_concat(cur, ": "@ + s);
        } else if cr == Rule::constraint {
            law_append_indented(l, cur, render(l, text, c, d + 1), d);
        } else if cr == Rule::expr {
            if i > 0 && rule_before(t, i) == Rule::comments {
                lemma_prefix_of_concat(cur, render(l, text, c, d + 1));
            } else {
                lemma_join_rendered_prefix(
                    l,
                    text,
                    c,
                    cur,
                    d,
                    " = "@,
                    " ="@,
                    binding_prefix_width(t.rule),
                    s,
                    should_break_assignment(s),
                );
            }
        } else if cr == Rule::comments {
            if i + 1 < t.inner.len() && rule_after(t, i) == Rule::expr {
                let c2 = cur + " ="@;
                law_append_indented(l, c2, render(l, text, c, d + 1), d);
                lemma_prefix_of_concat(cur, " ="@);
                lemma_prefix_trans(r, c2, cur);
            } else {
                lemma_prefix_of_concat(cur, s);
            }
        } else {
            assert(r == cur + (" "@ + s));
            lemma_prefix_of_concat(cur, " "@ + s);
        }
    } else {
        assert(cur.subrange(0, cur.len() as int) =~= cur);
    }
}

/// The children joined so far stay at the start of a binding as more are joined.
pub proof fn lemma_binding_fold_prefix(l: Layout, text: Seq<char>, t: Tree, d: nat, j: nat, i: nat)
    requires
        is_binding(t.rule),
        j <= i,
        fold(l, text, t, d, j).out.len() > 0,
    ensures
        has_prefix(fold(l, text, t, d, i).out, fold(l, text, t, d, j).out),
    decreases i,
{
    if i == j {
        let o = fold(l, text, t, d, j).out;
        assert(o.subrange(0, o.len() as int) =~= o);
    } else {
        lemma_binding_fold_prefix(l, text, t, d, j, (i - 1) as nat);
        let prev = fold(l, text, t, d, (i - 1) as nat);
        lemma_binding_step_prefix(l, text, t, d, prev, (i - 1) as nat);
        assert(fold(l, text, t, d, i) == step(l, text, t, d, prev, (i - 1) as nat));
        lemma_prefix_trans(fold(l, text, t, d, i).out, prev.out, fold(l, text, t, d, j).out);
    }
}

/// A `let` with a type annotation, `let p : T = e`, is written `let p: T` followed by the
/// rest of the binding.
pub proof fn law_let_annotation(l: Layout, text: Seq<char>, t: Tree, depth: nat)
    requires
        t.rule == Rule::let_stmt,
        t.inner.len() >= 2,
        t.inner[1].rule == Rule::type_expr,
        render(l, text, t.inner[0], depth).len() > 0,
    ensures
        has_prefix(
            render(l, text, t, depth),
            "let "@ + render(l, text, t.inner[0], depth) + ": "@ + render(l, text, t.inner[1], depth),
        ),
{
    let p = render(l, text, t.inner[0], depth);
    let ty = render(l, text, t.inner[1], depth);
    let a0 = fold(l, text, t, depth, 0);
    assert(a0 == init(l, text, t, depth));
    assert(init(l, text, t, depth) == acc_of(Seq::empty()));
    let a1 = fold(l, text, t, depth, 1);
    assert(a1 == step(l, text, t, depth, a0, 0));
    assert(a1.out == p);
    let a2 = fold(l, text, t, depth, 2);
    assert(a2 == step(l, text, t, depth, a1, 1));
    assert(a2.out == p + ": "@ + ty);
    let n = t.inner.len();
    lemma_binding_fold_prefix(l, text, t, depth, 2, n);
    let out = fold(l, text, t, depth, n).out;
    assert(inner(l, text, t, depth) == out);
    assert(render(l, text, t, depth) == "let "@ + out);
    let want = "let "@ + (p + ": "@ + ty);
    assert(("let "@ + out).subrange(0, want.len() as int) =~= want);
    assert(want =~= "let "@ + p + ": "@ + ty);
}

} // verus!
