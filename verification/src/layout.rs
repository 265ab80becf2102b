//! What the formatter writes for a tree: the layout rules, as spec functions over the model
//! of trees.

use vstd::prelude::*;
use crate::cst::{byte_offset, utf8_len, Tree};
use crate::rule::Rule;
use crate::text::{
    has_prefix, has_suffix, is_white, join, keep, replace_all, split, split_white, trim,
    trim_each, trim_end, trim_start,
};
use crate::width::{display_width, max_line_width};

verus! {

/// What `char::is_alphabetic` returns for a character (the Alphabetic property of Unicode).
pub uninterp spec fn alphabetic(c: char) -> bool;

/// Calls `char::is_alphabetic`; the result is the named Alphabetic property of the character.
#[verifier::external_body]
pub(crate) fn char_is_alphabetic(c: char) -> (r: bool)
    ensures
        r == alphabetic(c),
{
    c.is_alphabetic()
}

/// The settings that the layout depends on: spaces per indentation level, the preferred
/// line width, and where the source lines start (byte offsets).
pub struct Layout {
    pub tab: nat,
    pub width: nat,
    pub lines: Seq<usize>,
}

/// The state carried from one child to the next while a node's children are joined.
pub struct Acc {
    pub out: Seq<char>,
    pub cnt: nat,
    pub flag: bool,
    pub flag2: bool,
    pub last: Seq<char>,
    pub mark: nat,
}

pub open spec fn acc_of(out: Seq<char>) -> Acc {
    Acc { out, cnt: 0, flag: false, flag2: false, last: Seq::empty(), mark: 0 }
}

pub open spec fn with_out(a: Acc, out: Seq<char>) -> Acc {
    Acc { out, ..a }
}

pub open spec fn spaces(n: nat) -> Seq<char> {
    Seq::new(n, |i: int| ' ')
}

/// `depth` levels of indentation.
pub open spec fn indent(l: Layout, depth: nat) -> Seq<char> {
    spaces(l.tab * depth)
}

/// A line break followed by `depth` levels of indentation.
pub open spec fn newline(l: Layout, depth: nat) -> Seq<char> {
    seq!['\n'] + indent(l, depth)
}

pub open spec fn sat_succ(w: nat) -> nat {
    if w < usize::MAX {
        w + 1
    } else {
        usize::MAX as nat
    }
}

/// Width of a keyword and the space after it.
pub open spec fn kw_width(s: Seq<char>) -> nat {
    sat_succ(display_width(s))
}

pub open spec fn starts_white(s: Seq<char>) -> bool {
    s.len() > 0 && is_white(s[0])
}

pub open spec fn ends_white(s: Seq<char>) -> bool {
    s.len() > 0 && is_white(s.last())
}

/// The characters that are not white.
pub open spec fn remove_white(s: Seq<char>) -> Seq<char>
    decreases s.len(),
{
    if s.len() == 0 {
        s
    } else if is_white(s.last()) {
        remove_white(s.drop_last())
    } else {
        remove_white(s.drop_last()).push(s.last())
    }
}

/// Length in bytes of the UTF-8 encoding.
pub open spec fn bytes_len(s: Seq<char>) -> nat
    decreases s.len(),
{
    if s.len() == 0 {
        0
    } else {
        bytes_len(s.drop_last()) + utf8_len(s.last())
    }
}

/// The text without the spaces and tabs at its end.
pub open spec fn trim_end_blanks(s: Seq<char>) -> Seq<char>
    decreases s.len(),
{
    if s.len() > 0 && (s.last() == ' ' || s.last() == '\t') {
        trim_end_blanks(s.drop_last())
    } else {
        s
    }
}

/// How many line starts lie strictly between two positions.
pub open spec fn count_between(lines: Seq<usize>, a: nat, b: nat) -> nat
    decreases lines.len(),
{
    if lines.len() == 0 {
        0
    } else {
        let v = lines.last();
        count_between(lines.drop_last(), a, b) + if a < v && v < b {
            1nat
        } else {
            0
        }
    }
}

/// Spaces within a line collapsed to one, and none at its ends.
pub open spec fn collapse(l: Seq<char>) -> Seq<char> {
    join(keep(split_white(l), false), seq![' '])
}

pub open spec fn collapse_each(ls: Seq<Seq<char>>) -> Seq<Seq<char>> {
    ls.map_values(|x: Seq<char>| collapse(x))
}

pub open spec fn line_fits(l: Layout, depth: nat, extra: nat, s: Seq<char>) -> bool {
    l.tab * depth + extra + max_line_width(s) <= l.width
}

/// `rendered` put on a new line one level deeper, unless `current` already ends with that
/// line break.
pub open spec fn append_indented(l: Layout, current: Seq<char>, rendered: Seq<char>, depth: nat) -> Seq<char> {
    let prefix = newline(l, depth + 1);
    if has_suffix(current, prefix) {
        current + trim_start(rendered)
    } else {
        current + prefix + trim_start(rendered)
    }
}

pub open spec fn allows_inline_multiline(r: Seq<char>) -> bool {
    has_prefix(r, "'<"@) || has_prefix(r, "{"@) || has_prefix(r, "["@) || has_prefix(r, "(|"@)
}

pub open spec fn should_break_assignment(r: Seq<char>) -> bool {
    has_prefix(r, "let"@) || (!has_prefix(r, "'<"@) && !has_prefix(r, "{"@) && r.contains('\n'))
}

/// The rule that decides a match arm: the expression's own rule for an `expr` node.
pub open spec fn arm_head(t: Tree) -> Rule {
    if t.rule == Rule::expr && t.inner.len() > 0 {
        t.inner[0].rule
    } else {
        t.rule
    }
}

pub open spec fn is_structured_arm(t: Tree) -> bool {
    let r = arm_head(t);
    r == Rule::bind_stmt || r == Rule::lambda || r == Rule::match_expr
}

/// Rules whose contents are indented one level deeper.
pub open spec fn goes_deeper(r: Rule) -> bool {
    ||| r == Rule::block_text
    ||| r == Rule::cmd_text_arg
    ||| r == Rule::record
    ||| r == Rule::type_record
    ||| r == Rule::list
    ||| r == Rule::type_block_cmd
    ||| r == Rule::type_inline_cmd
    ||| r == Rule::math_cmd
    ||| r == Rule::match_expr
    ||| r == Rule::let_rec_matcharm
    ||| r == Rule::let_rec_inner
    ||| r == Rule::sig_stmt
    ||| r == Rule::struct_stmt
    ||| r == Rule::ctrl_then
    ||| r == Rule::ctrl_else
}

/// What stands between joined children.
pub open spec fn separator(l: Layout, r: Rule, depth: nat) -> Seq<char> {
    let nl = newline(l, depth);
    if r == Rule::block_cmd || r == Rule::inline_cmd {
        " "@
    } else if r == Rule::type_prod {
        " * "@
    } else if r == Rule::dyadic_expr || r == Rule::match_expr || r == Rule::unary_operator_expr {
        " "@
    } else if r == Rule::vertical || r == Rule::horizontal_bullet_list {
        nl
    } else if r == Rule::horizontal_list {
        nl + "|"@
    } else if r == Rule::unary {
        "#"@
    } else if r == Rule::type_optional {
        " ?-> "@
    } else if r == Rule::list {
        ";"@ + nl
    } else if r == Rule::tuple {
        ", "@
    } else if r == Rule::record || r == Rule::type_record {
        nl
    } else if r == Rule::type_block_cmd || r == Rule::type_inline_cmd || r == Rule::type_math_cmd {
        ";"@ + nl
    } else if r == Rule::horizontal_single {
        ""@
    } else if r == Rule::program_saty || r == Rule::program_satyh {
        nl
    } else {
        " "@
    }
}

/// Extra width of the keyword that a binding starts with.
pub open spec fn binding_prefix_width(r: Rule) -> nat {
    if r == Rule::let_block_stmt_ctx || r == Rule::let_block_stmt_noctx {
        kw_width("let-block"@)
    } else if r == Rule::let_inline_stmt_ctx || r == Rule::let_inline_stmt_noctx {
        kw_width("let-inline"@)
    } else if r == Rule::let_math_stmt {
        kw_width("let-math"@)
    } else if r == Rule::let_stmt {
        kw_width("let"@)
    } else {
        0
    }
}

pub open spec fn is_binding(r: Rule) -> bool {
    ||| r == Rule::let_block_stmt_ctx
    ||| r == Rule::let_block_stmt_noctx
    ||| r == Rule::let_inline_stmt_ctx
    ||| r == Rule::let_inline_stmt_noctx
    ||| r == Rule::let_stmt
    ||| r == Rule::let_math_stmt
}

pub open spec fn rule_before(t: Tree, i: nat) -> Rule {
    if 0 < i <= t.inner.len() {
        t.inner[i - 1].rule
    } else {
        Rule::misc
    }
}

pub open spec fn rule_after(t: Tree, i: nat) -> Rule {
    if i + 1 < t.inner.len() {
        t.inner[(i + 1) as int].rule
    } else {
        Rule::misc
    }
}

pub open spec fn self_text(text: Seq<char>, t: Tree) -> Seq<char> {
    text.subrange(t.start as int, t.end as int)
}

/// A comment line as written out.
pub open spec fn comment_text(s: Seq<char>) -> Seq<char> {
    trim_end(s)
}

/// The text of a node, with its children laid out, at the given depth.
pub open spec fn render(l: Layout, text: Seq<char>, t: Tree, depth: nat) -> Seq<char>
    decreases t, 20nat, 0nat,
{
    let nd = if goes_deeper(t.rule) {
        depth + 1
    } else {
        depth
    };
    finish(l, t, depth, nd, inner(l, text, t, nd), self_text(text, t))
}

/// The children of a node joined, at the node's own depth.
pub open spec fn inner(l: Layout, text: Seq<char>, t: Tree, d: nat) -> Seq<char>
    decreases t, 19nat, 0nat,
{
    let r = t.rule;
    let nl = newline(l, d);
    if r == Rule::application {
        application(l, text, t, d)
    } else if (r == Rule::record || r == Rule::type_record) && t.inner.len() == 1 {
        render(l, text, t.inner[0], d)
    } else {
        let out = fold(l, text, t, d, t.inner.len()).out;
        let a = fold(l, text, t, d, t.inner.len());
        if r == Rule::let_rec_stmt {
            if a.cnt > 2 {
                replace_all(out, " and "@, nl + indent(l, d) + "and"@)
            } else {
                out
            }
        } else if r == Rule::ctrl_then || r == Rule::ctrl_else {
            join(keep(split(out, '\n'), true), seq!['\n'])
        } else if r == Rule::ctrl_while {
            "while "@ + out
        } else if r == Rule::sig_stmt || r == Rule::horizontal_single {
            trim(out)
        } else if r == Rule::list {
            trim_end(out)
        } else {
            out
        }
    }
}

/// Whether some child of the given rule is laid out over several lines.
pub open spec fn some_multiline(l: Layout, text: Seq<char>, t: Tree, d: nat, r: Rule, i: nat) -> bool
    decreases t, 7nat, i,
{
    if i == 0 || i > t.inner.len() {
        false
    } else {
        some_multiline(l, text, t, d, r, (i - 1) as nat) || (t.inner[i - 1].rule == r && render(
            l,
            text,
            t.inner[i - 1],
            d,
        ).contains('\n'))
    }
}

pub open spec fn count_rule(t: Tree, r: Rule, i: nat) -> nat
    decreases i,
{
    if i == 0 || i > t.inner.len() {
        0
    } else {
        count_rule(t, r, (i - 1) as nat) + if t.inner[i - 1].rule == r {
            1nat
        } else {
            0
        }
    }
}

/// The state before the first child.
pub open spec fn init(l: Layout, text: Seq<char>, t: Tree, d: nat) -> Acc
    decreases t, 8nat, 0nat,
{
    let r = t.rule;
    if r == Rule::lambda {
        acc_of("fun"@)
    } else if r == Rule::horizontal_list {
        acc_of("|"@)
    } else if r == Rule::vertical {
        Acc { mark: t.end, ..acc_of(Seq::empty()) }
    } else if r == Rule::type_stmt {
        Acc {
            flag: count_rule(t, Rule::type_inner, t.inner.len()) > 2 || some_multiline(
                l,
                text,
                t,
                d,
                Rule::type_inner,
                t.inner.len(),
            ),
            ..acc_of(Seq::empty())
        }
    } else if r == Rule::type_inner {
        Acc {
            flag: trim_end(self_text(text, t)).contains('\n') || some_multiline(
                l,
                text,
                t,
                d,
                Rule::type_variant,
                t.inner.len(),
            ),
            ..acc_of(Seq::empty())
        }
    } else {
        acc_of(Seq::empty())
    }
}

/// The state after the first `i` children.
pub open spec fn fold(l: Layout, text: Seq<char>, t: Tree, d: nat, i: nat) -> Acc
    decreases t, 10nat, i,
{
    if i == 0 {
        init(l, text, t, d)
    } else {
        step(l, text, t, d, fold(l, text, t, d, (i - 1) as nat), (i - 1) as nat)
    }
}

/// The flat form of an application, whether it must break, and whether its arguments are
/// separated by spaces.
pub open spec fn app_flat(l: Layout, text: Seq<char>, t: Tree, d: nat, i: nat) -> (Seq<char>, bool, bool)
    decreases t, 10nat, i,
{
    if i == 0 || t.inner.len() == 0 {
        (Seq::empty(), false, true)
    } else if i == 1 {
        let first = render(l, text, t.inner[0], d);
        (first, first.contains('\n'), first != "document"@)
    } else if i > t.inner.len() {
        app_flat(l, text, t, d, t.inner.len())
    } else {
        let p = app_flat(l, text, t, d, (i - 1) as nat);
        let c = t.inner[i - 1];
        let s = render(l, text, c, d);
        let out = if p.2 {
            p.0 + " "@ + s
        } else {
            p.0 + s
        };
        (out, p.1 || c.rule == Rule::comments, p.2)
    }
}

/// An application with each argument on a line of its own.
pub open spec fn app_broken(l: Layout, text: Seq<char>, t: Tree, d: nat, i: nat) -> Seq<char>
    decreases t, 10nat, i,
{
    if i == 0 || t.inner.len() == 0 {
        Seq::empty()
    } else if i == 1 {
        render(l, text, t.inner[0], d)
    } else if i > t.inner.len() {
        app_broken(l, text, t, d, t.inner.len())
    } else {
        append_indented(
            l,
            app_broken(l, text, t, d, (i - 1) as nat),
            render(l, text, t.inner[i - 1], d + 1),
            d,
        )
    }
}

pub open spec fn application(l: Layout, text: Seq<char>, t: Tree, d: nat) -> Seq<char>
    decreases t, 18nat, 0nat,
{
    if t.inner.len() == 0 {
        Seq::empty()
    } else {
        let (flat, force, spaced) = app_flat(l, text, t, d, t.inner.len());
        let aggressive = t.inner.len() - 1 >= 3 && max_line_width(flat) > l.width / 2;
        if !spaced || (!force && !aggressive && line_fits(l, d, 0, flat)) {
            flat
        } else {
            app_broken(l, text, t, d, t.inner.len())
        }
    }
}

/// `current` and an expression joined on one line when it fits, or the expression on a new,
/// deeper line.
pub open spec fn join_rendered(
    l: Layout,
    text: Seq<char>,
    e: Tree,
    current: Seq<char>,
    depth: nat,
    inline_sep: Seq<char>,
    break_sep: Seq<char>,
    extra: nat,
    inline_expr: Seq<char>,
    force: bool,
) -> Seq<char>
    decreases e, 21nat, 0nat,
{
    let force = force || current.contains('\n') || (inline_expr.contains('\n')
        && !allows_inline_multiline(inline_expr));
    if !force && line_fits(l, depth, extra, current + inline_sep + inline_expr) {
        current + inline_sep + inline_expr
    } else {
        append_indented(l, current + break_sep, render(l, text, e, depth + 1), depth)
    }
}

pub open spec fn join_expr(
    l: Layout,
    text: Seq<char>,
    e: Tree,
    current: Seq<char>,
    depth: nat,
    inline_sep: Seq<char>,
    break_sep: Seq<char>,
    extra: nat,
) -> Seq<char>
    decreases e, 22nat, 0nat,
{
    join_rendered(
        l,
        text,
        e,
        current,
        depth,
        inline_sep,
        break_sep,
        extra,
        render(l, text, e, depth),
        false,
    )
}

pub open spec fn arm_rhs(l: Layout, text: Seq<char>, e: Tree, current: Seq<char>, depth: nat, extra: nat) -> Seq<char>
    decreases e, 22nat, 0nat,
{
    join_rendered(
        l,
        text,
        e,
        current,
        depth,
        " -> "@,
        " ->"@,
        extra,
        render(l, text, e, depth),
        is_structured_arm(e),
    )
}

pub open spec fn assignment_rhs(
    l: Layout,
    text: Seq<char>,
    e: Tree,
    rendered: Seq<char>,
    current: Seq<char>,
    depth: nat,
    extra: nat,
) -> Seq<char>
    decreases e, 22nat, 0nat,
{
    join_rendered(
        l,
        text,
        e,
        current,
        depth,
        " = "@,
        " ="@,
        extra,
        rendered,
        should_break_assignment(rendered),
    )
}

pub open spec fn dec(d: nat) -> nat {
    if d > 0 {
        (d - 1) as nat
    } else {
        0
    }
}

/// Child `i` joined onto the state.
pub open spec fn step(l: Layout, text: Seq<char>, t: Tree, d: nat, a: Acc, i: nat) -> Acc
    decreases t, 6nat, 0nat,
{
    if i >= t.inner.len() {
        a
    } else {
        let c = t.inner[i as int];
        let s = render(l, text, c, d);
        let cur = a.out;
        let r = t.rule;
        let cr = c.rule;
        let nl = newline(l, d);
        let sep = separator(l, r, d);
        if r == Rule::variant_constructor {
            with_out(
                a,
                if cur.len() == 0 {
                    s
                } else if !(cr == Rule::unary && has_prefix(s, "("@)) {
                    cur + sep + s
                } else {
                    cur + s
                },
            )
        } else if r == Rule::let_mutable_stmt {
            with_out(
                a,
                if cur.len() == 0 {
                    s
                } else if cr == Rule::var {
                    cur + " "@ + s
                } else if cr == Rule::expr {
                    join_expr(l, text, c, cur, d, " <- "@, " <-"@, kw_width("let-mutable"@))
                } else {
                    cur + s
                },
            )
        } else if r == Rule::type_stmt {
            with_out(
                a,
                if cur.len() == 0 {
                    s
                } else if cr == Rule::type_inner {
                    if a.flag {
                        cur + nl + "and"@ + " "@ + s
                    } else {
                        cur + " and "@ + s
                    }
                } else {
                    cur + s
                },
            )
        } else if r == Rule::let_rec_stmt {
            if cur.len() == 0 {
                Acc {
                    out: s,
                    cnt: if cr != Rule::comments {
                        a.cnt + 1
                    } else {
                        a.cnt
                    },
                    ..a
                }
            } else if cr == Rule::let_rec_inner {
                Acc {
                    out: if a.cnt + 1 > 2 {
                        cur + " and "@ + s
                    } else {
                        cur + s
                    },
                    cnt: a.cnt + 1,
                    ..a
                }
            } else {
                with_out(a, cur + s)
            }
        } else if r == Rule::sig_val_stmt || r == Rule::sig_direct_stmt {
            let s = if r == Rule::sig_val_stmt && cr == Rule::bin_operator {
                "("@ + s + ")"@
            } else {
                s
            };
            with_out(
                a,
                if cur.len() == 0 {
                    s
                } else if cr == Rule::var || cr == Rule::inline_cmd_name || cr
                    == Rule::block_cmd_name {
                    cur + " "@ + s
                } else if cr == Rule::bin_operator {
                    cur + " ("@ + s + ")"@
                } else if cr == Rule::type_expr {
                    cur + ": "@ + s
                } else if cr == Rule::comments {
                    if ends_white(cur) {
                        cur + s
                    } else {
                        cur + nl + s
                    }
                } else {
                    cur + " "@ + s
                },
            )
        } else if is_binding(r) {
            with_out(
                a,
                if cur.len() == 0 {
                    s
                } else if cr == Rule::var || cr == Rule::block_cmd_name {
                    cur + " "@ + s
                } else if cr == Rule::bin_operator {
                    cur + " ("@ + s + ")"@
                } else if cr == Rule::type_expr {
                    cur + ": "@ + s
                } else if cr == Rule::constraint {
                    append_indented(l, cur, render(l, text, c, d + 1), d)
                } else if cr == Rule::expr {
                    if i > 0 && rule_before(t, i) == Rule::comments {
                        cur + render(l, text, c, d + 1)
                    } else {
                        assignment_rhs(l, text, c, s, cur, d, binding_prefix_width(r))
                    }
                } else if cr == Rule::comments {
                    if i + 1 < t.inner.len() && rule_after(t, i) == Rule::expr {
                        append_indented(l, cur + " ="@, render(l, text, c, d + 1), d)
                    } else {
                        cur + s
                    }
                } else {
                    cur + " "@ + s
                },
            )
        } else if r == Rule::math_cmd_expr_arg || r == Rule::math_cmd_expr_option {
            with_out(
                a,
                if cr == Rule::math_list || cr == Rule::math_single {
                    cur + "{ "@ + s + " }"@
                } else if cr == Rule::horizontal_list || cr == Rule::horizontal_bullet_list || cr
                    == Rule::horizontal_single {
                    cur + "!{ "@ + s + " }"@
                } else if cr == Rule::vertical || cr == Rule::record || cr == Rule::list {
                    cur + "!"@ + s
                } else if cr == Rule::expr {
                    cur + "!("@ + s + ")"@
                } else {
                    cur + s
                },
            )
        } else if r == Rule::cmd_expr_option {
            let s = if cr == Rule::expr {
                "("@ + s + ")"@
            } else {
                s
            };
            with_out(
                a,
                if cur.len() == 0 {
                    s
                } else if cr == Rule::expr {
                    cur + s
                } else {
                    cur + sep + s
                },
            )
        } else if r == Rule::pat_cons || r == Rule::pat_variant {
            with_out(
                a,
                if cur.len() == 0 {
                    s
                } else if cr == Rule::pattern {
                    if has_prefix(s, "("@) {
                        cur + s
                    } else {
                        cur + " "@ + s
                    }
                } else if (r == Rule::pat_cons && cr == Rule::pat_variant) || (r == Rule::pat_variant
                    && cr == Rule::variant_name) {
                    cur + " "@ + s
                } else if r == Rule::pat_cons && cr == Rule::pat_as {
                    cur + " :: "@ + s
                } else if cr == Rule::comments {
                    cur + nl + s
                } else {
                    cur + s
                },
            )
        } else if r == Rule::constraint {
            with_out(
                a,
                if cur.len() == 0 {
                    s
                } else if cr == Rule::type_param {
                    cur + " "@ + s
                } else if cr == Rule::type_record {
                    cur + " :: "@ + s
                } else if cr == Rule::comments {
                    cur + nl + s
                } else {
                    cur + s
                },
            )
        } else if r == Rule::record || r == Rule::type_record {
            if cr == Rule::unary {
                with_out(a, cur + s + " with "@)
            } else {
                let s = if cr == Rule::record_unit || cr == Rule::type_record_unit {
                    s + ";"@
                } else {
                    s
                };
                let o = cur + s;
                let has_next = i + 1 < t.inner.len();
                let nr = rule_after(t, i);
                with_out(
                    a,
                    if has_next && cr != Rule::comments && nr == Rule::comments {
                        o + sep
                    } else if has_next && (nr == Rule::record_unit || nr == Rule::type_record_unit) {
                        o + sep
                    } else if !has_next && cr == Rule::comments {
                        trim_end(o)
                    } else {
                        o
                    },
                )
            }
        } else if r == Rule::type_inner {
            let o = if cr == Rule::typename {
                if cur.len() == 0 {
                    s + " = "@
                } else {
                    cur + " "@ + s + " = "@
                }
            } else if cr == Rule::type_variant {
                if a.flag {
                    trim_end(cur) + seq!['\n'] + indent(l, d + 1) + "| "@ + s
                } else if a.flag2 {
                    cur + " | "@ + s
                } else {
                    cur + s
                }
            } else {
                cur + s
            };
            Acc { out: o, flag2: a.flag2 || cr == Rule::type_variant, ..a }
        } else if r == Rule::type_variant {
            with_out(
                a,
                if cur.len() == 0 {
                    s
                } else if cr == Rule::type_expr {
                    cur + " of "@ + s
                } else {
                    cur + s
                },
            )
        } else if r == Rule::let_rec_inner {
            if cur.len() == 0 {
                with_out(a, s)
            } else if cr == Rule::let_rec_matcharm {
                with_out(a, cur + nl + "| "@ + trim(s))
            } else if cr == Rule::type_expr {
                Acc { out: cur + ": "@ + s, flag: true, ..a }
            } else if cr == Rule::arg {
                if a.flag {
                    Acc { out: cur + " | "@ + s, flag: false, ..a }
                } else {
                    with_out(a, cur + " "@ + s)
                }
            } else if cr == Rule::expr {
                with_out(a, assignment_rhs(l, text, c, s, cur, dec(d), kw_width("let-rec"@)))
            } else {
                with_out(a, cur + s)
            }
        } else if r == Rule::let_rec_matcharm {
            with_out(
                a,
                if cur.len() == 0 {
                    s
                } else if cr == Rule::arg {
                    cur + " "@ + s
                } else if cr == Rule::expr {
                    assignment_rhs(l, text, c, s, cur, dec(d), display_width("| "@))
                } else {
                    cur + s
                },
            )
        } else if r == Rule::match_arm {
            with_out(
                a,
                if cur.len() == 0 {
                    s
                } else if cr == Rule::pat_as || cr == Rule::match_guard {
                    cur + " "@ + s
                } else if cr == Rule::expr {
                    arm_rhs(l, text, c, cur, d, display_width("| "@))
                } else {
                    cur + s
                },
            )
        } else if r == Rule::match_expr {
            with_out(
                a,
                if cur.len() == 0 {
                    if cr == Rule::expr {
                        "match "@ + s + " with"@
                    } else {
                        s
                    }
                } else if cr == Rule::expr {
                    cur + " "@ + "match "@ + s + " with"@
                } else if cr == Rule::match_arm {
                    cur + nl + "| "@ + s
                } else {
                    cur + s
                },
            )
        } else if r == Rule::ctrl_if {
            with_out(
                a,
                if cr == Rule::expr {
                    cur + "if "@ + s
                } else if cr == Rule::ctrl_then || cr == Rule::ctrl_else || cr == Rule::comments {
                    cur + nl + s
                } else {
                    cur + s
                },
            )
        } else if r == Rule::ctrl_then || r == Rule::ctrl_else {
            with_out(
                a,
                if cur.len() == 0 {
                    nl + s
                } else if s.len() == 0 {
                    cur
                } else if has_suffix(cur, nl) {
                    cur + s
                } else {
                    cur + sep + s
                },
            )
        } else if r == Rule::ctrl_while {
            if cr == Rule::expr {
                Acc {
                    out: if a.cnt + 1 == 1 {
                        cur + s + " do "@
                    } else {
                        cur + s
                    },
                    cnt: a.cnt + 1,
                    ..a
                }
            } else {
                with_out(a, cur + s)
            }
        } else if r == Rule::unary {
            let s = if cr == Rule::bin_operator {
                "( "@ + s + " )"@
            } else if cr == Rule::expr {
                "("@ + s + ")"@
            } else {
                s
            };
            with_out(
                a,
                if cur.len() == 0 {
                    s
                } else if cur == "!"@ || cur == "&"@ || cur == "~"@ {
                    cur + s
                } else if cr == Rule::bin_operator || cr == Rule::expr {
                    cur + s
                } else {
                    cur + sep + s
                },
            )
        } else if r == Rule::lambda {
            with_out(
                a,
                if cur.len() == 0 {
                    s
                } else if cr == Rule::pattern {
                    cur + " "@ + s
                } else if cr == Rule::comments {
                    cur + s
                } else {
                    join_expr(l, text, c, cur, d, " -> "@, " ->"@, 0)
                },
            )
        } else if r == Rule::record_unit {
            with_out(
                a,
                if cur.len() == 0 {
                    s
                } else if cr == Rule::var_ptn {
                    cur + " "@ + s
                } else if cr == Rule::expr {
                    join_expr(l, text, c, cur, d, " = "@, " ="@, 0)
                } else {
                    cur + s
                },
            )
        } else if r == Rule::type_record_unit {
            with_out(
                a,
                if cur.len() == 0 {
                    s
                } else if cr == Rule::var {
                    cur + " "@ + s
                } else if cr == Rule::type_expr {
                    cur + ": "@ + s
                } else {
                    cur + s
                },
            )
        } else if r == Rule::type_application {
            with_out(
                a,
                if cr == Rule::comments {
                    if ends_white(cur) {
                        cur + s
                    } else {
                        cur + nl + s
                    }
                } else {
                    let o = if cur.len() > 0 {
                        cur + sep
                    } else {
                        cur
                    };
                    if cr == Rule::type_expr {
                        o + "("@ + s + ")"@
                    } else {
                        o + s
                    }
                },
            )
        } else if r == Rule::assignment {
            with_out(
                a,
                if cur.len() == 0 {
                    s
                } else if cr == Rule::var {
                    cur + " "@ + s
                } else if cr == Rule::dyadic_expr || cr == Rule::unary_operator_expr || cr
                    == Rule::application || cr == Rule::unary || cr == Rule::variant_constructor {
                    join_expr(l, text, c, cur, d, " <- "@, " <-"@, 0)
                } else {
                    cur + s
                },
            )
        } else if r == Rule::bind_stmt {
            with_out(
                a,
                if cr == Rule::let_stmt || cr == Rule::let_rec_stmt || cr == Rule::let_math_stmt
                    || cr == Rule::let_mutable_stmt || cr == Rule::open_stmt {
                    if i == 0 {
                        cur + s + " in"@ + nl
                    } else {
                        cur + nl + s + " in"@ + nl
                    }
                } else if cr == Rule::expr {
                    if has_prefix(s, "let"@) {
                        cur + trim_start(s)
                    } else if s.contains('\n') {
                        cur + indent(l, 1) + trim_start(render(l, text, c, d + 1))
                    } else {
                        cur + trim_start(s)
                    }
                } else if cr == Rule::comments {
                    if has_suffix(cur, "in"@) {
                        cur + nl + s
                    } else {
                        cur + s
                    }
                } else {
                    cur + s
                },
            )
        } else if r == Rule::type_expr {
            with_out(
                a,
                if i == 0 {
                    s
                } else if rule_before(t, i) == Rule::type_optional {
                    cur + " ?-> "@ + s
                } else {
                    cur + " -> "@ + s
                },
            )
        } else if r == Rule::module_stmt {
            with_out(
                a,
                if i == 0 {
                    s
                } else if cr == Rule::sig_stmt {
                    cur + ": "@ + s
                } else if cr == Rule::struct_stmt {
                    cur + " = "@ + s
                } else {
                    cur + s
                },
            )
        } else if r == Rule::struct_stmt {
            let pr = rule_before(t, i);
            let cur = if cur.len() == 0 || has_suffix(cur, seq!['\n'] + nl) {
                cur
            } else if i > 0 && pr == Rule::comments {
                cur
            } else if i > 0 && pr != cr {
                cur + seq!['\n'] + nl
            } else if !s.contains('\n') {
                cur + nl
            } else if pr == Rule::let_stmt || pr == Rule::let_rec_stmt {
                cur + seq!['\n'] + nl
            } else if cr == Rule::let_stmt || cr == Rule::let_rec_stmt {
                cur + seq!['\n'] + nl
            } else if cr == Rule::comments {
                cur
            } else {
                cur + nl
            };
            with_out(a, cur + s)
        } else if r == Rule::sig_stmt {
            with_out(
                a,
                if cr == Rule::sig_val_stmt || cr == Rule::sig_type_stmt {
                    cur + nl + s
                } else if cr == Rule::module_name {
                    cur + " "@ + s
                } else if cr == Rule::struct_stmt {
                    cur + "= struct"@ + s
                } else {
                    cur + s
                },
            )
        } else if r == Rule::horizontal_single {
            with_out(
                a,
                if cur.len() == 0 {
                    s
                } else if cr == Rule::regular_text && trim(s).len() == 0 {
                    if ends_white(cur) {
                        cur
                    } else {
                        cur + s
                    }
                } else if cr == Rule::regular_text {
                    if ends_white(cur) {
                        cur + trim_start(s)
                    } else {
                        cur + s
                    }
                } else if cr == Rule::comments {
                    trim_end(cur) + nl + s
                } else {
                    cur + s
                },
            )
        } else if r == Rule::preamble {
            let s = trim(s);
            with_out(
                a,
                if cur.len() == 0 {
                    s
                } else if s.len() == 0 {
                    cur
                } else if cr == Rule::module_stmt {
                    cur + "\n\n"@ + s
                } else {
                    cur + seq!['\n'] + s
                },
            )
        } else if r == Rule::horizontal_list {
            with_out(
                a,
                if cr == Rule::comments {
                    cur + s
                } else if s.len() == 0 {
                    cur
                } else {
                    cur + " "@ + s + sep
                },
            )
        } else if r == Rule::list {
            with_out(
                a,
                if cr == Rule::comments {
                    cur + s
                } else if cur.len() == 0 {
                    s + sep
                } else if s.len() == 0 {
                    cur
                } else {
                    cur + s + sep
                },
            )
        } else if r == Rule::math_single {
            let o = if cur.len() == 0 {
                s
            } else if s.len() == 0 {
                cur
            } else if has_suffix(cur, nl) {
                cur + s
            } else if has_prefix(a.last, seq!['\\']) {
                cur + sep + s
            } else if cr == Rule::comments {
                trim_end(cur) + nl + s
            } else if alphabetic(s[0]) && alphabetic(cur.last()) {
                cur + s
            } else {
                cur + sep + s
            };
            Acc { out: o, last: s, ..a }
        } else if r == Rule::math_token {
            with_out(
                a,
                if cur.len() == 0 {
                    s
                } else if s.len() == 0 {
                    cur
                } else if has_suffix(cur, nl) {
                    cur + s
                } else if cr == Rule::math_sup || cr == Rule::math_sub {
                    cur + s
                } else {
                    cur + sep + s
                },
            )
        } else if r == Rule::vertical {
            let o = if cur.len() == 0 {
                s
            } else if s.len() == 0 {
                cur
            } else if has_suffix(cur, nl) {
                cur + s
            } else if has_prefix(s, "%\n"@) {
                cur + s
            } else {
                let cur = if count_between(l.lines, byte_offset(text, a.mark as int), byte_offset(text, c.start as int)) > 1 {
                    cur + seq!['\n']
                } else {
                    cur
                };
                cur + sep + s
            };
            Acc { out: trim_end(o), mark: c.end, ..a }
        } else if r == Rule::dyadic_expr {
            with_out(
                a,
                if cur.len() == 0 {
                    s
                } else if s.len() == 0 {
                    cur
                } else if has_suffix(cur, nl) {
                    cur + s
                } else if cr == Rule::bin_operator && trim(s) == "|>"@ {
                    cur + s
                } else {
                    cur + sep + s
                },
            )
        } else if r == Rule::program_saty {
            let o = if cur.len() == 0 {
                s
            } else if s.len() == 0 {
                cur
            } else if has_suffix(cur, nl) {
                cur + s
            } else if has_prefix(s, "%\n"@) {
                cur + s
            } else {
                cur + sep + s
            };
            with_out(
                a,
                if cr == Rule::preamble {
                    o + "\nin\n\n"@
                } else {
                    o
                },
            )
        } else {
            with_out(
                a,
                if cur.len() == 0 {
                    s
                } else if s.len() == 0 {
                    cur
                } else if has_suffix(cur, nl) {
                    cur + s
                } else {
                    cur + sep + s
                },
            )
        }
    }
}

/// A command's text argument: its contents trimmed, between the brackets it was written with.
pub open spec fn text_arg(out: Seq<char>, st: Seq<char>, si: Seq<char>, ei: Seq<char>) -> Seq<char> {
    let o = trim(out);
    let sa = seq![st[0]];
    let ea = seq![st.last()];
    let kaigyou = o.contains('\n') || st[0] == '<' || has_prefix(o, "%"@);
    if has_prefix(o, "%\n"@) {
        if kaigyou {
            sa + o + ei + ea
        } else {
            sa + " "@ + o + " "@ + ea
        }
    } else if trim(o).len() == 0 {
        sa + ea
    } else if starts_white(o) {
        sa + seq!['\n'] + o + ea
    } else if kaigyou {
        sa + si + o + ei + ea
    } else {
        sa + " "@ + o + " "@ + ea
    }
}

/// Plain text of horizontal mode: each line trimmed, empty lines dropped, and a space or a
/// line break kept at either end where the source had one.
pub open spec fn regular_text(l: Layout, st: Seq<char>, depth: nat, si: Seq<char>, ei: Seq<char>) -> Seq<char> {
    let o = join(keep(trim_each(split(st, '\n')), false), newline(l, depth));
    let start_space = if starts_white(st) {
        " "@
    } else {
        ""@
    };
    let end_space = if ends_white(st) {
        " "@
    } else {
        ""@
    };
    let starts_nl = has_prefix(st, seq!['\n']);
    let ends_nl = trim_end_blanks(st) != trim_end(st);
    if trim(o).len() == 0 {
        if starts_nl {
            si
        } else {
            start_space
        }
    } else if starts_nl && ends_nl {
        si + o + ei
    } else if starts_nl {
        si + o + end_space
    } else if ends_nl {
        start_space + o + ei
    } else {
        start_space + o + end_space
    }
}

/// A command type: its argument types in brackets, broken over lines when they are.
pub open spec fn cmd_type(out: Seq<char>, si: Seq<char>, ei: Seq<char>, kw: Seq<char>) -> Seq<char> {
    if out.contains('\n') {
        "["@ + si + out + ";"@ + ei + "] "@ + kw
    } else {
        "["@ + out + "] "@ + kw
    }
}

/// Rules of declarations, statements and types.
pub open spec fn head_rule(r: Rule) -> bool {
    ||| r == Rule::comments
    ||| r == Rule::stage
    ||| r == Rule::headers
    ||| r == Rule::header_require
    ||| r == Rule::header_import
    ||| r == Rule::pkgname
    ||| r == Rule::math_cmd
    ||| r == Rule::let_stmt
    ||| r == Rule::let_rec_stmt
    ||| r == Rule::let_inline_stmt_ctx
    ||| r == Rule::let_inline_stmt_noctx
    ||| r == Rule::let_block_stmt_ctx
    ||| r == Rule::let_block_stmt_noctx
    ||| r == Rule::let_math_stmt
    ||| r == Rule::let_mutable_stmt
    ||| r == Rule::type_stmt
    ||| r == Rule::sig_type_stmt
    ||| r == Rule::module_stmt
    ||| r == Rule::open_stmt
    ||| r == Rule::sig_stmt
    ||| r == Rule::struct_stmt
    ||| r == Rule::sig_val_stmt
    ||| r == Rule::sig_direct_stmt
    ||| r == Rule::type_inline_cmd
    ||| r == Rule::type_block_cmd
    ||| r == Rule::type_math_cmd
}

/// The layout of declarations, statements and types.
pub open spec fn finish_head(l: Layout, t: Tree, depth: nat, nd: nat, out: Seq<char>, st: Seq<char>) -> Option<Seq<char>> {
    let r = t.rule;
    let si = newline(l, nd);
    let ei = newline(l, depth);
    if head_rule(r) {
        Some(
            if r == Rule::comments {
                comment_text(st) + ei
            } else if r == Rule::stage {
                "@stage: "@ + st + "\n\n"@
            } else if r == Rule::headers {
                if out.len() > 0 {
                    out + seq!['\n']
                } else {
                    out
                }
            } else if r == Rule::header_require {
                "@require: "@ + out + seq!['\n']
            } else if r == Rule::header_import {
                "@import: "@ + out + seq!['\n']
            } else if r == Rule::pkgname || r == Rule::math_cmd {
                trim(st)
            } else if r == Rule::let_stmt {
                "let "@ + out
            } else if r == Rule::let_rec_stmt {
                "let-rec "@ + out
            } else if r == Rule::let_inline_stmt_ctx || r == Rule::let_inline_stmt_noctx {
                "let-inline "@ + out
            } else if r == Rule::let_block_stmt_ctx || r == Rule::let_block_stmt_noctx {
                "let-block "@ + out
            } else if r == Rule::let_math_stmt {
                "let-math "@ + out
            } else if r == Rule::let_mutable_stmt {
                "let-mutable "@ + out
            } else if r == Rule::type_stmt || r == Rule::sig_type_stmt {
                "type "@ + out
            } else if r == Rule::module_stmt {
                si + "module "@ + out
            } else if r == Rule::open_stmt {
                "open "@ + out
            } else if r == Rule::sig_stmt {
                "sig"@ + si + out + ei + "end"@
            } else if r == Rule::struct_stmt {
                "struct"@ + si + out + ei + "end"@
            } else if r == Rule::sig_val_stmt {
                "val "@ + out
            } else if r == Rule::sig_direct_stmt {
                si + "direct "@ + out
            } else if r == Rule::type_inline_cmd {
                cmd_type(out, si, ei, "inline-cmd"@)
            } else if r == Rule::type_block_cmd {
                cmd_type(out, si, ei, "block-cmd"@)
            } else if r == Rule::type_math_cmd {
                cmd_type(out, si, ei, "math-cmd"@)
            } else {
                out
            },
        )
    } else {
        None
    }
}

/// The layout of expressions, text and math.
pub open spec fn finish_tail(l: Layout, t: Tree, depth: nat, nd: nat, out: Seq<char>, st: Seq<char>) -> Seq<char> {
    let r = t.rule;
    let si = newline(l, nd);
    let ei = newline(l, depth);
    if r == Rule::type_list_unit_optional {
        out + "?"@
    } else if r == Rule::type_param {
        "'"@ + out
    } else if r == Rule::constraint {
        "constraint "@ + out
    } else if r == Rule::block_text {
        if out.len() > 0 {
            "'<"@ + si + out + ei + ">"@
        } else if has_prefix(out, "%\n"@) {
            "'<"@ + out + ei + ">"@
        } else {
            "'<"@ + out + ">"@
        }
    } else if r == Rule::math_text {
        "${"@ + out + "}"@
    } else if r == Rule::list {
        if out.len() == 0 {
            "[]"@
        } else if bytes_len(remove_white(st)) < 15 {
            "["@ + join(keep(trim_each(split(out, '\n')), false), Seq::empty()) + "]"@
        } else {
            "["@ + si + out + ei + "]"@
        }
    } else if r == Rule::record || r == Rule::type_record {
        if t.inner.len() > 1 {
            "(|"@ + si + out + ei + "|)"@
        } else {
            "(|"@ + out + "|)"@
        }
    } else if r == Rule::tuple {
        "("@ + out + ")"@
    } else if r == Rule::bin_operator {
        if st == "|>"@ {
            si + indent(l, 1) + st
        } else {
            st
        }
    } else if r == Rule::cmd_expr_arg {
        if has_prefix(st, "("@) {
            "("@ + out + ")"@
        } else {
            out
        }
    } else if r == Rule::cmd_expr_option || r == Rule::application_args_optional {
        if st == "?*"@ {
            "?*"@
        } else {
            "?:"@ + out
        }
    } else if r == Rule::cmd_text_arg || r == Rule::horizontal_text {
        text_arg(out, st, si, ei)
    } else if r == Rule::inline_cmd || r == Rule::block_cmd || r == Rule::expr {
        if has_suffix(st, ";"@) {
            out + ";"@
        } else {
            out
        }
    } else if r == Rule::math_cmd_expr_option {
        ":?"@ + out
    } else if r == Rule::pat_list {
        "["@ + out + "]"@
    } else if r == Rule::match_guard {
        "when "@ + out
    } else if r == Rule::ctrl_then {
        "then\n"@ + out
    } else if r == Rule::ctrl_else {
        "else\n"@ + out
    } else if r == Rule::command_application {
        "command "@ + out
    } else if r == Rule::horizontal_list {
        indent(l, nd) + join(keep(collapse_each(split(st, '\n')), false), newline(l, nd))
    } else if r == Rule::horizontal_bullet_star {
        spaces((l.tab / 2) * ((bytes_len(st) - 1) as nat)) + st
    } else if r == Rule::regular_text {
        regular_text(l, st, depth, si, ei)
    } else if r == Rule::inline_text_embedding || r == Rule::block_text_embedding {
        "#"@ + out + ";"@
    } else if r == Rule::math_sup {
        if has_prefix(st, "{"@) {
            "^{"@ + out + "}"@
        } else {
            "^"@ + out
        }
    } else if r == Rule::math_sub {
        if has_prefix(st, "{"@) {
            "_{"@ + out + "}"@
        } else {
            "_"@ + out
        }
    } else if r == Rule::math_unary {
        if out.len() == 0 {
            st
        } else {
            out
        }
    } else if r == Rule::math_embedding {
        "#"@ + out
    } else if r == Rule::misc {
        " "@
    } else if r == Rule::program_saty || r == Rule::program_satyh || r == Rule::preamble {
        trim_start(out)
    } else if r == Rule::arg || r == Rule::typename || r == Rule::unary_prefix || r
        == Rule::expr_with_mod || r == Rule::var || r == Rule::var_ptn || r == Rule::modvar || r
        == Rule::mod_cmd_name || r == Rule::module_name || r == Rule::variant_name || r
        == Rule::cmd_name_ptn || r == Rule::inline_cmd_name || r == Rule::block_cmd_name || r
        == Rule::math_cmd_name || r == Rule::pattern || r == Rule::unary_operator || r
        == Rule::horizontal_escaped_char || r == Rule::const_unit || r == Rule::const_bool || r
        == Rule::const_int || r == Rule::const_float || r == Rule::const_length || r
        == Rule::const_string || r == Rule::dummy_inline_cmd_incomplete {
        st
    } else {
        out
    }
}

/// A node written out from its joined children `out` and its source text `st`.
pub open spec fn finish(l: Layout, t: Tree, depth: nat, nd: nat, out: Seq<char>, st: Seq<char>) -> Seq<char> {
    match finish_head(l, t, depth, nd, out, st) {
        Some(x) => x,
        None => finish_tail(l, t, depth, nd, out, st),
    }
}

/// Text that fits on a line still fits at a depth no deeper, after a prefix no wider, and
/// when its widest line is no wider.
pub proof fn law_line_fits_monotone(
    l: Layout,
    depth: nat,
    extra: nat,
    s: Seq<char>,
    depth2: nat,
    extra2: nat,
    s2: Seq<char>,
)
    requires
        line_fits(l, depth, extra, s),
        depth2 <= depth,
        extra2 <= extra,
        max_line_width(s2) <= max_line_width(s),
    ensures
        line_fits(l, depth2, extra2, s2),
{
    assert(l.tab * depth2 <= l.tab * depth) by (nonlinear_arith)
        requires
            depth2 <= depth,
    ;
}

/// Putting text on a new, deeper line keeps the current text as the start of the result, and
/// never writes the line break twice: breaking first with nothing and then with the text gives
/// what breaking once with the text gives.
pub proof fn law_append_indented(l: Layout, current: Seq<char>, rendered: Seq<char>, depth: nat)
    ensures
        append_indented(l, append_indented(l, current, Seq::empty(), depth), rendered, depth)
            == append_indented(l, current, rendered, depth),
        has_prefix(append_indented(l, current, rendered, depth), current),
{
    let prefix = newline(l, depth + 1);
    let e = Seq::<char>::empty();
    assert(trim_start(e) =~= e);
    let once = append_indented(l, current, e, depth);
    if has_suffix(current, prefix) {
        assert(once =~= current);
    } else {
        assert(once =~= current + prefix);
        let c2 = current + prefix;
        assert(c2.subrange(c2.len() - prefix.len(), c2.len() as int) =~= prefix);
        assert(append_indented(l, once, rendered, depth) =~= current + prefix + trim_start(
            rendered,
        ));
    }
    let r = append_indented(l, current, rendered, depth);
    assert(r.subrange(0, current.len() as int) =~= current);
}

} // verus!
