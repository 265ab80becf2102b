//! The formatter: lays a concrete syntax tree out as text.

use vstd::prelude::*;
use crate::comment::{comment_spans, get_comments, spans_of, to_comment_string, Comment};
use crate::cst::{byte_offset, byte_offset_wide, height, lemma_child_height, wf, Cst};
use crate::layout::{
    acc_of, allows_inline_multiline, app_broken, app_flat, append_indented, application,
    arm_head, arm_rhs, assignment_rhs, binding_prefix_width, bytes_len, char_is_alphabetic,
    cmd_type, collapse, collapse_each, count_between, count_rule, ends_white, finish,
    finish_head, finish_tail, fold, goes_deeper, head_rule, indent, init, inner, is_binding,
    is_structured_arm, join_expr, join_rendered, kw_width, line_fits, newline, regular_text,
    remove_white, render, self_text, separator, should_break_assignment, some_multiline, spaces,
    starts_white, step, text_arg, trim_end_blanks, with_out, Acc, Layout,
};
use crate::options::{spec_line_width, FormattingOptions};
use crate::rule::Rule;
use crate::source::CstText;
use crate::text::{
    cat, cat3, char_is_white, chars_of, contains_char, ends_with, has_suffix, is_white, join,
    join_of, keep, keep_pieces, lemma_split_free, lemma_trim_end_last, replace_all_of, slice_of,
    split, split_of, starts_with, trim_each, trim_end, trim_end_each, trim_end_of, trim_of,
    trim_pieces, trim_start_of, views,
};
use crate::width::{max_line_width_of, width_of};
use std::collections::VecDeque;

verus! {

/// Lays trees out; holds the source text, where its lines start (byte offsets, as the parser
/// counts them), its comments, and the options.
pub struct Formatter {
    pub text: Vec<char>,
    pub lines: Vec<usize>,
    pub comments: VecDeque<Comment>,
    pub depth: usize,
    pub output: String,
    pub option: FormattingOptions,
}

/// `depth` levels of `unit` spaces each.
pub fn indent_space(unit: usize, depth: usize) -> (r: String)
    ensures
        r@ == spaces((unit * depth) as nat),
{
    let v = indent_chars(unit, depth);
    string_of(&v)
}

pub fn indent_chars(unit: usize, depth: usize) -> (r: Vec<char>)
    ensures
        r@ == spaces((unit * depth) as nat),
{
    let mut r: Vec<char> = Vec::new();
    let mut k: usize = 0;
    while k < depth
        invariant
            k <= depth,
            r@.len() == unit * k,
            forall|x: int| 0 <= x < r@.len() ==> r@[x] == ' ',
        decreases depth - k,
    {
        let mut j: usize = 0;
        while j < unit
            invariant
                k < depth,
                j <= unit,
                r@.len() == unit * k + j,
                forall|x: int| 0 <= x < r@.len() ==> r@[x] == ' ',
            decreases unit - j,
        {
            r.push(' ');
            j = j + 1;
        }
        assert(unit * (k + 1) == unit * k + unit) by (nonlinear_arith);
        k = k + 1;
    }
    assert(r@ =~= spaces((unit * depth) as nat));
    r
}

/// Calls `String::push`, which appends the character to the string.
#[verifier::external_body]
fn push_char(s: &mut String, c: char)
    ensures
        final(s)@ == old(s)@.push(c),
{
    s.push(c);
}

/// The string of the given characters.
pub fn string_of(v: &Vec<char>) -> (r: String)
    ensures
        r@ == v@,
{
    let mut r = String::new();
    let mut i: usize = 0;
    while i < v.len()
        invariant
            i <= v.len(),
            r@ == v@.subrange(0, i as int),
        decreases v.len() - i,
    {
        push_char(&mut r, v[i]);
        assert(v@.subrange(0, i + 1) =~= v@.subrange(0, i as int).push(v@[i as int]));
        i = i + 1;
    }
    assert(v@.subrange(0, v.len() as int) =~= v@);
    r
}

pub fn lit(s: &str) -> (r: Vec<char>)
    ensures
        r@ == s@,
{
    chars_of(s)
}

pub fn one(c: char) -> (r: Vec<char>)
    ensures
        r@ == seq![c],
{
    let mut r: Vec<char> = Vec::new();
    r.push(c);
    assert(r@ =~= seq![c]);
    r
}

/// `a` followed by a literal.
pub fn cat_lit(a: &Vec<char>, s: &str) -> (r: Vec<char>)
    ensures
        r@ == a@ + s@,
{
    cat(a, &lit(s))
}

/// A literal followed by `a`.
pub fn lit_cat(s: &str, a: &Vec<char>) -> (r: Vec<char>)
    ensures
        r@ == s@ + a@,
{
    cat(&lit(s), a)
}

/// Whether the UTF-8 encoding is shorter than `n` bytes.
pub fn bytes_below(v: &Vec<char>, n: u128) -> (r: bool)
    ensures
        r == (bytes_len(v@) < n),
{
    let total = bytes_count(v);
    total < n
}

/// Length of the UTF-8 encoding.
pub fn bytes_count(v: &Vec<char>) -> (r: u128)
    ensures
        r == bytes_len(v@),
        r <= 4 * v.len(),
{
    let mut acc: u128 = 0;
    let mut i: usize = 0;
    while i < v.len()
        invariant
            i <= v.len(),
            acc == bytes_len(v@.subrange(0, i as int)),
            acc <= 4 * i,
        decreases v.len() - i,
    {
        let c = v[i];
        let w: u128 = if (c as u32) < 0x80 {
            1
        } else if (c as u32) < 0x800 {
            2
        } else if (c as u32) < 0x10000 {
            3
        } else {
            4
        };
        assert(v@.subrange(0, i + 1).drop_last() =~= v@.subrange(0, i as int));
        acc = acc + w;
        i = i + 1;
    }
    assert(v@.subrange(0, v.len() as int) =~= v@);
    acc
}

/// `n` spaces.
pub fn spaces_of(n: u128) -> (r: Vec<char>)
    ensures
        r@ == spaces(n as nat),
{
    let mut r: Vec<char> = Vec::new();
    let mut k: u128 = 0;
    while k < n
        invariant
            k <= n,
            r@.len() == k,
            forall|x: int| 0 <= x < r@.len() ==> r@[x] == ' ',
        decreases n - k,
    {
        r.push(' ');
        k = k + 1;
    }
    assert(r@ =~= spaces(n as nat));
    r
}

impl Formatter {
    pub open spec fn layout(&self) -> Layout {
        Layout {
            tab: self.option.tab_size as nat,
            width: spec_line_width(self.option),
            lines: self.lines@,
        }
    }

    pub open spec fn options(&self) -> FormattingOptions {
        self.option
    }

    fn tab(&self) -> (r: usize)
        ensures
            r == self.layout().tab,
    {
        self.option.tab_size as usize
    }

    fn line_width(&self) -> (r: usize)
        ensures
            r == self.layout().width,
    {
        self.option.line_width()
    }

    fn indent(&self, d: usize) -> (r: Vec<char>)
        ensures
            r@ == indent(self.layout(), d as nat),
    {
        indent_chars(self.tab(), d)
    }

    fn newline(&self, d: usize) -> (r: Vec<char>)
        ensures
            r@ == newline(self.layout(), d as nat),
    {
        cat(&one('\n'), &self.indent(d))
    }
}

/// The characters that are not white.
pub fn remove_white_of(v: &Vec<char>) -> (r: Vec<char>)
    ensures
        r@ == remove_white(v@),
{
    let mut r: Vec<char> = Vec::new();
    let mut i: usize = 0;
    while i < v.len()
        invariant
            i <= v.len(),
            r@ == remove_white(v@.subrange(0, i as int)),
        decreases v.len() - i,
    {
        assert(v@.subrange(0, i + 1).drop_last() =~= v@.subrange(0, i as int));
        if !char_is_white(v[i]) {
            r.push(v[i]);
        }
        i = i + 1;
    }
    assert(v@.subrange(0, v.len() as int) =~= v@);
    r
}

pub proof fn lemma_trim_end_blanks(s: Seq<char>, k: int)
    requires
        0 <= k <= s.len(),
        forall|j: int| s.len() - k <= j < s.len() ==> (#[trigger] s[j] == ' ' || s[j] == '\t'),
        k < s.len() ==> !(s[s.len() - k - 1] == ' ' || s[s.len() - k - 1] == '\t'),
    ensures
        trim_end_blanks(s) == s.take(s.len() - k),
    decreases k,
{
    if k > 0 {
        let t = s.drop_last();
        assert forall|j: int| t.len() - (k - 1) <= j < t.len() implies (#[trigger] t[j] == ' '
            || t[j] == '\t') by {
            assert(t[j] == s[j]);
        }
        if k - 1 < t.len() {
            assert(t[t.len() - (k - 1) - 1] == s[s.len() - k - 1]);
        }
        lemma_trim_end_blanks(t, k - 1);
        assert(t.take(t.len() - (k - 1)) =~= s.take(s.len() - k));
    } else {
        assert(s.take(s.len() as int) =~= s);
    }
}

/// The text without the spaces and tabs at its end.
pub fn trim_end_blanks_of(v: &Vec<char>) -> (r: Vec<char>)
    ensures
        r@ == trim_end_blanks(v@),
{
    let mut k: usize = 0;
    while k < v.len() && (v[v.len() - 1 - k] == ' ' || v[v.len() - 1 - k] == '\t')
        invariant
            k <= v.len(),
            forall|j: int| v.len() - k <= j < v.len() ==> (#[trigger] v@[j] == ' ' || v@[j]
                == '\t'),
        decreases v.len() - k,
    {
        k = k + 1;
    }
    proof {
        lemma_trim_end_blanks(v@, k as int);
    }
    slice_of(v, 0, v.len() - k)
}

pub fn starts_white_of(v: &Vec<char>) -> (r: bool)
    ensures
        r == starts_white(v@),
{
    v.len() > 0 && char_is_white(v[0])
}

pub fn ends_white_of(v: &Vec<char>) -> (r: bool)
    ensures
        r == ends_white(v@),
{
    v.len() > 0 && char_is_white(v[v.len() - 1])
}

/// Spaces within a line collapsed to one, and none at its ends.
pub fn collapse_of(v: &Vec<char>) -> (r: Vec<char>)
    ensures
        r@ == collapse(v@),
{
    let parts = split_of(v, ' ', true);
    let kept = keep_pieces(&parts, false);
    join_of(&kept, &one(' '))
}

pub fn collapse_lines(parts: &Vec<Vec<char>>) -> (r: Vec<Vec<char>>)
    ensures
        views(r@) == collapse_each(views(parts@)),
{
    let mut r: Vec<Vec<char>> = Vec::new();
    let mut i: usize = 0;
    while i < parts.len()
        invariant
            i <= parts.len(),
            views(r@) == collapse_each(views(parts@)).take(i as int),
        decreases parts.len() - i,
    {
        let ghost r0 = views(r@);
        let c = collapse_of(&parts[i]);
        r.push(c);
        assert(views(r@) =~= r0.push(c@));
        assert(collapse_each(views(parts@)).take(i + 1) =~= collapse_each(views(parts@)).take(
            i as int,
        ).push(collapse(parts@[i as int]@)));
        i = i + 1;
    }
    assert(collapse_each(views(parts@)).take(parts.len() as int) =~= collapse_each(
        views(parts@),
    ));
    r
}

/// Each line trimmed and the empty ones dropped, the rest joined with `sep`.
pub fn squash_lines(v: &Vec<char>, sep: &Vec<char>) -> (r: Vec<char>)
    ensures
        r@ == join(keep(trim_each(split(v@, '\n')), false), sep@),
{
    let parts = split_of(v, '\n', false);
    let trimmed = trim_pieces(&parts, true);
    let kept = keep_pieces(&trimmed, false);
    join_of(&kept, sep)
}

impl Formatter {
    fn line_fits(&self, depth: usize, extra: usize, s: &Vec<char>) -> (r: bool)
        ensures
            r == line_fits(self.layout(), depth as nat, extra as nat, s@),
    {
        let w = self.line_width();
        let m = max_line_width_of(s);
        match self.tab().checked_mul(depth) {
            None => false,
            Some(a) => match a.checked_add(extra) {
                None => false,
                Some(b) => match b.checked_add(m) {
                    None => false,
                    Some(c) => c <= w,
                },
            },
        }
    }

    fn append_indented_rendered(&self, current: Vec<char>, rendered: &Vec<char>, depth: usize) -> (r: Vec<char>)
        requires
            depth < usize::MAX,
        ensures
            r@ == append_indented(self.layout(), current@, rendered@, depth as nat),
    {
        let prefix = self.newline(depth + 1);
        let t = trim_start_of(rendered);
        if ends_with(&current, &prefix) {
            cat(&current, &t)
        } else {
            cat3(&current, &prefix, &t)
        }
    }

    fn allows_inline_multiline_expr(&self, rendered: &Vec<char>) -> (r: bool)
        ensures
            r == allows_inline_multiline(rendered@),
    {
        starts_with(rendered, &lit("'<")) || starts_with(rendered, &lit("{")) || starts_with(
            rendered,
            &lit("["),
        ) || starts_with(rendered, &lit("(|"))
    }

    fn should_break_assignment_rhs(&self, rendered: &Vec<char>) -> (r: bool)
        ensures
            r == should_break_assignment(rendered@),
    {
        starts_with(rendered, &lit("let")) || (!starts_with(rendered, &lit("'<")) && !starts_with(
            rendered,
            &lit("{"),
        ) && contains_char(rendered, '\n'))
    }

    fn is_structured_match_arm_expr(&self, c: &Cst) -> (r: bool)
        ensures
            r == is_structured_arm(c.tree()),
    {
        let r = if c.rule == Rule::expr && c.inner.len() > 0 {
            assert(c.tree().inner[0] == c.inner@[0].tree());
            c.inner[0].rule
        } else {
            c.rule
        };
        assert(r == arm_head(c.tree()));
        r == Rule::bind_stmt || r == Rule::lambda || r == Rule::match_expr
    }

    /// How many source lines start strictly between two character positions of `text`: the
    /// line starts are byte offsets, and so are compared with the byte offsets of the two
    /// positions.
    fn lines_between(&self, text: &Vec<char>, a: usize, b: usize) -> (r: usize)
        requires
            a <= text@.len(),
            b <= text@.len(),
        ensures
            r == count_between(self.lines@, byte_offset(text@, a as int), byte_offset(text@, b as int)),
    {
        let ba = byte_offset_wide(text, a);
        let bb = byte_offset_wide(text, b);
        let mut n: usize = 0;
        let mut i: usize = 0;
        while i < self.lines.len()
            invariant
                i <= self.lines.len(),
                n <= i,
                ba == byte_offset(text@, a as int),
                bb == byte_offset(text@, b as int),
                n == count_between(self.lines@.subrange(0, i as int), ba as nat, bb as nat),
            decreases self.lines.len() - i,
        {
            assert(self.lines@.subrange(0, i + 1).drop_last() =~= self.lines@.subrange(0, i as int));
            let v = self.lines[i] as u128;
            if ba < v && v < bb {
                n = n + 1;
            }
            i = i + 1;
        }
        assert(self.lines@.subrange(0, self.lines.len() as int) =~= self.lines@);
        n
    }
}

/// A command's text argument laid out from its joined contents.
pub fn text_arg_of(out: &Vec<char>, st: &Vec<char>, si: &Vec<char>, ei: &Vec<char>) -> (r: Vec<char>)
    requires
        st.len() > 0,
    ensures
        r@ == text_arg(out@, st@, si@, ei@),
{
    let o = trim_of(out);
    let sa = one(st[0]);
    let ea = one(st[st.len() - 1]);
    let kaigyou = contains_char(&o, '\n') || st[0] == '<' || starts_with(&o, &lit("%"));
    if starts_with(&o, &lit("%\n")) {
        if kaigyou {
            cat(&cat3(&sa, &o, ei), &ea)
        } else {
            cat(&cat3(&cat_lit(&sa, " "), &o, &lit(" ")), &ea)
        }
    } else if trim_of(&o).len() == 0 {
        cat(&sa, &ea)
    } else if starts_white_of(&o) {
        cat(&cat3(&sa, &one('\n'), &o), &ea)
    } else if kaigyou {
        cat(&cat3(&cat(&sa, si), &o, ei), &ea)
    } else {
        cat(&cat3(&cat_lit(&sa, " "), &o, &lit(" ")), &ea)
    }
}

/// Plain horizontal text laid out from its source text.
pub fn regular_text_of(f: &Formatter, st: &Vec<char>, depth: usize, si: &Vec<char>, ei: &Vec<char>) -> (r: Vec<char>)
    ensures
        r@ == regular_text(f.layout(), st@, depth as nat, si@, ei@),
{
    let o = squash_lines(st, &f.newline(depth));
    let start_space = if starts_white_of(st) {
        lit(" ")
    } else {
        lit("")
    };
    let end_space = if ends_white_of(st) {
        lit(" ")
    } else {
        lit("")
    };
    let starts_nl = starts_with(st, &one('\n'));
    let ends_nl = !crate::text::same_chars(&trim_end_blanks_of(st), &trim_end_of(st));
    if trim_of(&o).len() == 0 {
        if starts_nl {
            let r = slice_of(si, 0, si.len());
            assert(si@.subrange(0, si.len() as int) =~= si@);
            r
        } else {
            start_space
        }
    } else if starts_nl && ends_nl {
        cat3(si, &o, ei)
    } else if starts_nl {
        cat3(si, &o, &end_space)
    } else if ends_nl {
        cat3(&start_space, &o, ei)
    } else {
        cat3(&start_space, &o, &end_space)
    }
}

pub fn cmd_type_of(out: &Vec<char>, si: &Vec<char>, ei: &Vec<char>, kw: &str) -> (r: Vec<char>)
    ensures
        r@ == cmd_type(out@, si@, ei@, kw@),
{
    if contains_char(out, '\n') {
        cat(&cat3(&cat(&lit("["), si), &cat_lit(out, ";"), &cat_lit(ei, "] ")), &lit(kw))
    } else {
        cat(&cat3(&lit("["), out, &lit("] ")), &lit(kw))
    }
}

/// The state carried from one child to the next while a node's children are joined.
pub struct Folding {
    pub out: Vec<char>,
    pub cnt: usize,
    pub flag: bool,
    pub flag2: bool,
    pub last: Vec<char>,
    pub mark: usize,
}

impl Folding {
    pub open spec fn acc(&self) -> Acc {
        Acc {
            out: self.out@,
            cnt: self.cnt as nat,
            flag: self.flag,
            flag2: self.flag2,
            last: self.last@,
            mark: self.mark as nat,
        }
    }
}

pub fn folding_of(out: Vec<char>) -> (r: Folding)
    ensures
        r.acc() == acc_of(out@),
        r.cnt == 0,
{
    let r = Folding { out, cnt: 0, flag: false, flag2: false, last: Vec::new(), mark: 0 };
    assert(r.acc().last =~= Seq::<char>::empty());
    r
}

pub fn set_out(a: Folding, out: Vec<char>) -> (r: Folding)
    ensures
        r.acc() == with_out(a.acc(), out@),
        r.cnt == a.cnt,
{
    Folding { out, ..a }
}

pub fn head_rule_of(r: Rule) -> (b: bool)
    ensures
        b == head_rule(r),
{
    r == Rule::comments || r == Rule::stage || r == Rule::headers || r == Rule::header_require
        || r == Rule::header_import || r == Rule::pkgname || r == Rule::math_cmd || r
        == Rule::let_stmt || r == Rule::let_rec_stmt || r == Rule::let_inline_stmt_ctx || r
        == Rule::let_inline_stmt_noctx || r == Rule::let_block_stmt_ctx || r
        == Rule::let_block_stmt_noctx || r == Rule::let_math_stmt || r == Rule::let_mutable_stmt
        || r == Rule::type_stmt || r == Rule::sig_type_stmt || r == Rule::module_stmt || r
        == Rule::open_stmt || r == Rule::sig_stmt || r == Rule::struct_stmt || r
        == Rule::sig_val_stmt || r == Rule::sig_direct_stmt || r == Rule::type_inline_cmd || r
        == Rule::type_block_cmd || r == Rule::type_math_cmd
}

pub fn goes_deeper_of(r: Rule) -> (b: bool)
    ensures
        b == goes_deeper(r),
{
    r == Rule::block_text || r == Rule::cmd_text_arg || r == Rule::record || r == Rule::type_record
        || r == Rule::list || r == Rule::type_block_cmd || r == Rule::type_inline_cmd || r
        == Rule::math_cmd || r == Rule::match_expr || r == Rule::let_rec_matcharm || r
        == Rule::let_rec_inner || r == Rule::sig_stmt || r == Rule::struct_stmt || r
        == Rule::ctrl_then || r == Rule::ctrl_else
}

impl Formatter {
    /// The layout of declarations, statements and types.
    fn finish_head(&self, c: &Cst, depth: usize, nd: usize, out: Vec<char>, st: Vec<char>) -> (r: Option<Vec<char>>)
        requires
            (c.rule == Rule::cmd_text_arg || c.rule == Rule::horizontal_text || c.rule
                == Rule::horizontal_bullet_star) ==> st.len() > 0,
        ensures
            match finish_head(self.layout(), c.tree(), depth as nat, nd as nat, out@, st@) {
                Some(x) => r is Some && r->0@ == x,
                None => r is None,
            },
    {
        let r = c.rule;
        let si = self.newline(nd);
        let ei = self.newline(depth);
        if !head_rule_of(r) {
            return None;
        }
        Some(
            if r == Rule::comments {
                cat(&to_comment_string(&st), &ei)
            } else if r == Rule::stage {
                cat3(&lit("@stage: "), &st, &lit("\n\n"))
            } else if r == Rule::headers {
                if out.len() > 0 {
                    cat(&out, &one('\n'))
                } else {
                    out
                }
            } else if r == Rule::header_require {
                cat3(&lit("@require: "), &out, &one('\n'))
            } else if r == Rule::header_import {
                cat3(&lit("@import: "), &out, &one('\n'))
            } else if r == Rule::pkgname || r == Rule::math_cmd {
                trim_of(&st)
            } else if r == Rule::let_stmt {
                lit_cat("let ", &out)
            } else if r == Rule::let_rec_stmt {
                lit_cat("let-rec ", &out)
            } else if r == Rule::let_inline_stmt_ctx || r == Rule::let_inline_stmt_noctx {
                lit_cat("let-inline ", &out)
            } else if r == Rule::let_block_stmt_ctx || r == Rule::let_block_stmt_noctx {
                lit_cat("let-block ", &out)
            } else if r == Rule::let_math_stmt {
                lit_cat("let-math ", &out)
            } else if r == Rule::let_mutable_stmt {
                lit_cat("let-mutable ", &out)
            } else if r == Rule::type_stmt || r == Rule::sig_type_stmt {
                lit_cat("type ", &out)
            } else if r == Rule::module_stmt {
                cat3(&si, &lit("module "), &out)
            } else if r == Rule::open_stmt {
                lit_cat("open ", &out)
            } else if r == Rule::sig_stmt {
                cat(&cat3(&lit("sig"), &si, &out), &cat_lit(&ei, "end"))
            } else if r == Rule::struct_stmt {
                cat(&cat3(&lit("struct"), &si, &out), &cat_lit(&ei, "end"))
            } else if r == Rule::sig_val_stmt {
                lit_cat("val ", &out)
            } else if r == Rule::sig_direct_stmt {
                cat3(&si, &lit("direct "), &out)
            } else if r == Rule::type_inline_cmd {
                cmd_type_of(&out, &si, &ei, "inline-cmd")
            } else if r == Rule::type_block_cmd {
                cmd_type_of(&out, &si, &ei, "block-cmd")
            } else if r == Rule::type_math_cmd {
                cmd_type_of(&out, &si, &ei, "math-cmd")
            } else {
                out
            },
        )
    }

    /// The layout of expressions, text and math.
    fn finish_tail(&self, c: &Cst, depth: usize, nd: usize, out: Vec<char>, st: Vec<char>) -> (r: Vec<char>)
        requires
            (c.rule == Rule::cmd_text_arg || c.rule == Rule::horizontal_text || c.rule
                == Rule::horizontal_bullet_star) ==> st.len() > 0,
        ensures
            r@ == finish_tail(self.layout(), c.tree(), depth as nat, nd as nat, out@, st@),
    {
        let r = c.rule;
        let si = self.newline(nd);
        let ei = self.newline(depth);
        if r == Rule::type_list_unit_optional {
            cat_lit(&out, "?")
        } else if r == Rule::type_param {
            lit_cat("'", &out)
        } else if r == Rule::constraint {
            lit_cat("constraint ", &out)
        } else if r == Rule::block_text {
            if out.len() > 0 {
                cat(&cat3(&lit("'<"), &si, &out), &cat_lit(&ei, ">"))
            } else if starts_with(&out, &lit("%\n")) {
                cat3(&lit("'<"), &out, &cat_lit(&ei, ">"))
            } else {
                cat3(&lit("'<"), &out, &lit(">"))
            }
        } else if r == Rule::math_text {
            cat3(&lit("${"), &out, &lit("}"))
        } else if r == Rule::list {
            if out.len() == 0 {
                lit("[]")
            } else if bytes_below(&remove_white_of(&st), 15) {
                cat3(&lit("["), &squash_lines(&out, &Vec::new()), &lit("]"))
            } else {
                cat(&cat3(&lit("["), &si, &out), &cat_lit(&ei, "]"))
            }
        } else if r == Rule::record || r == Rule::type_record {
            if c.inner.len() > 1 {
                cat(&cat3(&lit("(|"), &si, &out), &cat_lit(&ei, "|)"))
            } else {
                cat3(&lit("(|"), &out, &lit("|)"))
            }
        } else if r == Rule::tuple {
            cat3(&lit("("), &out, &lit(")"))
        } else if r == Rule::bin_operator {
            if crate::text::same_chars(&st, &lit("|>")) {
                cat3(&si, &self.indent(1), &st)
            } else {
                st
            }
        } else if r == Rule::cmd_expr_arg {
            if starts_with(&st, &lit("(")) {
                cat3(&lit("("), &out, &lit(")"))
            } else {
                out
            }
        } else if r == Rule::cmd_expr_option || r == Rule::application_args_optional {
            if crate::text::same_chars(&st, &lit("?*")) {
                lit("?*")
            } else {
                lit_cat("?:", &out)
            }
        } else if r == Rule::cmd_text_arg || r == Rule::horizontal_text {
            text_arg_of(&out, &st, &si, &ei)
        } else if r == Rule::inline_cmd || r == Rule::block_cmd || r == Rule::expr {
            if ends_with(&st, &lit(";")) {
                cat_lit(&out, ";")
            } else {
                out
            }
        } else if r == Rule::math_cmd_expr_option {
            lit_cat(":?", &out)
        } else if r == Rule::pat_list {
            cat3(&lit("["), &out, &lit("]"))
        } else if r == Rule::match_guard {
            lit_cat("when ", &out)
        } else if r == Rule::ctrl_then {
            lit_cat("then\n", &out)
        } else if r == Rule::ctrl_else {
            lit_cat("else\n", &out)
        } else if r == Rule::command_application {
            lit_cat("command ", &out)
        } else if r == Rule::horizontal_list {
            let parts = split_of(&st, '\n', false);
            let collapsed = collapse_lines(&parts);
            let kept = keep_pieces(&collapsed, false);
            cat(&self.indent(nd), &join_of(&kept, &si))
        } else if r == Rule::horizontal_bullet_star {
            let b = bytes_count(&st);
            proof {
                assert(st@.drop_last().len() < st@.len());
            }
            assert(b >= 1);
            let half = (self.tab() / 2) as u128;
            assert(half * (b - 1) <= 0x1_0000_0000u128 * (4 * st.len())) by (nonlinear_arith)
                requires
                    half <= 0x1_0000_0000u128,
                    b <= 4 * st.len(),
                    b >= 1,
            ;
            let n = half * (b - 1);
            cat(&spaces_of(n), &st)
        } else if r == Rule::regular_text {
            regular_text_of(self, &st, depth, &si, &ei)
        } else if r == Rule::inline_text_embedding || r == Rule::block_text_embedding {
            cat3(&lit("#"), &out, &lit(";"))
        } else if r == Rule::math_sup {
            if starts_with(&st, &lit("{")) {
                cat3(&lit("^{"), &out, &lit("}"))
            } else {
                lit_cat("^", &out)
            }
        } else if r == Rule::math_sub {
            if starts_with(&st, &lit("{")) {
                cat3(&lit("_{"), &out, &lit("}"))
            } else {
                lit_cat("_", &out)
            }
        } else if r == Rule::math_unary {
            if out.len() == 0 {
                st
            } else {
                out
            }
        } else if r == Rule::math_embedding {
            lit_cat("#", &out)
        } else if r == Rule::misc {
            lit(" ")
        } else if r == Rule::program_saty || r == Rule::program_satyh || r == Rule::preamble {
            trim_start_of(&out)
        } else if r == Rule::arg || r == Rule::typename || r == Rule::unary_prefix || r
            == Rule::expr_with_mod || r == Rule::var || r == Rule::var_ptn || r == Rule::modvar
            || r == Rule::mod_cmd_name || r == Rule::module_name || r == Rule::variant_name || r
            == Rule::cmd_name_ptn || r == Rule::inline_cmd_name || r == Rule::block_cmd_name || r
            == Rule::math_cmd_name || r == Rule::pattern || r == Rule::unary_operator || r
            == Rule::horizontal_escaped_char || r == Rule::const_unit || r == Rule::const_bool
            || r == Rule::const_int || r == Rule::const_float || r == Rule::const_length || r
            == Rule::const_string || r == Rule::dummy_inline_cmd_incomplete {
            st
        } else {
            out
        }
    }

    /// A node written out from its joined children `out` and its source text `st`.
    fn finish(&self, c: &Cst, depth: usize, nd: usize, out: Vec<char>, st: Vec<char>) -> (r: Vec<char>)
        requires
            (c.rule == Rule::cmd_text_arg || c.rule == Rule::horizontal_text || c.rule
                == Rule::horizontal_bullet_star) ==> st.len() > 0,
        ensures
            r@ == finish(self.layout(), c.tree(), depth as nat, nd as nat, out@, st@),
    {
        let out2 = slice_of(&out, 0, out.len());
        let st2 = slice_of(&st, 0, st.len());
        assert(out@.subrange(0, out.len() as int) =~= out@);
        assert(st@.subrange(0, st.len() as int) =~= st@);
        match self.finish_head(c, depth, nd, out, st) {
            Some(x) => x,
            None => self.finish_tail(c, depth, nd, out2, st2),
        }
    }
}

/// Width of a keyword and the space after it.
pub fn kw_width_of(s: &str) -> (r: usize)
    ensures
        r == kw_width(s@),
{
    let w = width_of(&lit(s));
    if w < usize::MAX {
        w + 1
    } else {
        usize::MAX
    }
}

impl Formatter {
    /// The text of a node, with its children laid out, at the given depth.
    fn to_string_cst(&self, text: &Vec<char>, c: &Cst, depth: usize) -> (r: Vec<char>)
        requires
            wf(c.tree(), text@.len()),
            depth + 2 * height(c.tree()) <= usize::MAX,
        ensures
            r@ == render(self.layout(), text@, c.tree(), depth as nat),
        decreases c, 20nat,
    {
        let nd = if goes_deeper_of(c.rule) {
            depth + 1
        } else {
            depth
        };
        let out = self.to_string_cst_inner(text, c, nd);
        let st = slice_of(text, c.span.start, c.span.end);
        assert(st@ == self_text(text@, c.tree()));
        self.finish(c, depth, nd, out, st)
    }

    /// The children of a node joined, at the node's own depth.
    fn to_string_cst_inner(&self, text: &Vec<char>, c: &Cst, d: usize) -> (r: Vec<char>)
        requires
            wf(c.tree(), text@.len()),
            d + 2 * height(c.tree()) <= usize::MAX + 1,
        ensures
            r@ == inner(self.layout(), text@, c.tree(), d as nat),
        decreases c, 19nat,
    {
        let ghost t = c.tree();
        let r = c.rule;
        if r == Rule::application {
            return self.application(text, c, d);
        }
        if (r == Rule::record || r == Rule::type_record) && c.inner.len() == 1 {
            proof {
                lemma_child_height(t, 0);
                assert(t.inner[0] == c.inner@[0].tree());
            }
            return self.to_string_cst(text, &c.inner[0], d);
        }
        let mut a = self.fold_init(text, c, d);
        let mut i: usize = 0;
        while i < c.inner.len()
            invariant
                t == c.tree(),
                wf(t, text@.len()),
                d + 2 * height(t) <= usize::MAX + 1,
                i <= c.inner.len(),
                a.acc() == fold(self.layout(), text@, t, d as nat, i as nat),
                a.cnt <= i,
                a.mark <= text@.len(),
            decreases c.inner.len() - i,
        {
            a = self.step(text, c, d, a, i);
            i = i + 1;
        }
        let nl = self.newline(d);
        let cnt = a.cnt;
        let out = a.out;
        if r == Rule::let_rec_stmt {
            if cnt > 2 {
                proof {
                    reveal_strlit(" and ");
                }
                replace_all_of(&out, &lit(" and "), &cat_lit(&cat(&nl, &self.indent(d)), "and"))
            } else {
                out
            }
        } else if r == Rule::ctrl_then || r == Rule::ctrl_else {
            let parts = split_of(&out, '\n', false);
            join_of(&keep_pieces(&parts, true), &one('\n'))
        } else if r == Rule::ctrl_while {
            lit_cat("while ", &out)
        } else if r == Rule::sig_stmt || r == Rule::horizontal_single {
            trim_of(&out)
        } else if r == Rule::list {
            trim_end_of(&out)
        } else {
            out
        }
    }

    fn count_rule_of(&self, c: &Cst, r: Rule) -> (n: usize)
        ensures
            n == count_rule(c.tree(), r, c.tree().inner.len()),
    {
        let ghost t = c.tree();
        let mut n: usize = 0;
        let mut i: usize = 0;
        while i < c.inner.len()
            invariant
                t == c.tree(),
                i <= c.inner.len(),
                n <= i,
                n == count_rule(t, r, i as nat),
            decreases c.inner.len() - i,
        {
            assert(t.inner[i as int] == c.inner@[i as int].tree());
            if c.inner[i].rule == r {
                n = n + 1;
            }
            i = i + 1;
        }
        n
    }

    /// Whether some child of the given rule is laid out over several lines.
    fn some_multiline(&self, text: &Vec<char>, c: &Cst, d: usize, r: Rule) -> (b: bool)
        requires
            wf(c.tree(), text@.len()),
            d + 2 * height(c.tree()) <= usize::MAX + 1,
        ensures
            b == some_multiline(self.layout(), text@, c.tree(), d as nat, r, c.tree().inner.len()),
        decreases c, 7nat,
    {
        let ghost t = c.tree();
        let mut found = false;
        let mut i: usize = 0;
        while i < c.inner.len()
            invariant
                t == c.tree(),
                wf(t, text@.len()),
                d + 2 * height(t) <= usize::MAX + 1,
                i <= c.inner.len(),
                found == some_multiline(self.layout(), text@, t, d as nat, r, i as nat),
            decreases c.inner.len() - i,
        {
            proof {
                lemma_child_height(t, i as int);
                assert(t.inner[i as int] == c.inner@[i as int].tree());
            }
            if !found && c.inner[i].rule == r {
                let s = self.to_string_cst(text, &c.inner[i], d);
                found = contains_char(&s, '\n');
            }
            i = i + 1;
        }
        found
    }

    /// The state before the first child.
    fn fold_init(&self, text: &Vec<char>, c: &Cst, d: usize) -> (a: Folding)
        requires
            wf(c.tree(), text@.len()),
            d + 2 * height(c.tree()) <= usize::MAX + 1,
        ensures
            a.acc() == init(self.layout(), text@, c.tree(), d as nat),
            a.cnt == 0,
            a.mark <= text@.len(),
        decreases c, 8nat,
    {
        let r = c.rule;
        if r == Rule::lambda {
            folding_of(lit("fun"))
        } else if r == Rule::horizontal_list {
            folding_of(lit("|"))
        } else if r == Rule::vertical {
            let mut f = folding_of(Vec::new());
            f.mark = c.span.end;
            f
        } else if r == Rule::type_stmt {
            let mut f = folding_of(Vec::new());
            f.flag = self.count_rule_of(c, Rule::type_inner) > 2 || self.some_multiline(
                text,
                c,
                d,
                Rule::type_inner,
            );
            f
        } else if r == Rule::type_inner {
            let mut f = folding_of(Vec::new());
            let st = slice_of(text, c.span.start, c.span.end);
            f.flag = contains_char(&trim_end_of(&st), '\n') || self.some_multiline(
                text,
                c,
                d,
                Rule::type_variant,
            );
            f
        } else {
            folding_of(Vec::new())
        }
    }

    /// Child `i` joined onto the state.
    fn step(&self, text: &Vec<char>, c: &Cst, d: usize, a: Folding, i: usize) -> (r: Folding)
        requires
            wf(c.tree(), text@.len()),
            d + 2 * height(c.tree()) <= usize::MAX + 1,
            i < c.inner.len(),
            a.cnt <= i,
            a.mark <= text@.len(),
        ensures
            r.acc() == step(self.layout(), text@, c.tree(), d as nat, a.acc(), i as nat),
            r.cnt <= i + 1,
            r.mark <= text@.len(),
        decreases c, 6nat,
    {
        let ghost t = c.tree();
        proof {
            lemma_child_height(t, i as int);
            assert(t.inner[i as int] == c.inner@[i as int].tree());
        }
        let s = self.to_string_cst(text, &c.inner[i], d);
        let r = c.rule;
        if r == Rule::variant_constructor || r == Rule::let_mutable_stmt || r == Rule::type_stmt
            || r == Rule::let_rec_stmt || r == Rule::sig_val_stmt || r == Rule::sig_direct_stmt {
            self.join_declaration(text, c, d, a, i, s)
        } else if is_binding_of(r) {
            self.join_binding(text, c, d, a, i, s)
        } else if structure_rule_of(r) {
            self.join_structure(text, c, d, a, i, s)
        } else if control_rule_of(r) {
            self.join_control(text, c, d, a, i, s)
        } else {
            self.join_text(text, c, d, a, i, s)
        }
    }
}

pub fn is_binding_of(r: Rule) -> (b: bool)
    ensures
        b == is_binding(r),
{
    r == Rule::let_block_stmt_ctx || r == Rule::let_block_stmt_noctx || r
        == Rule::let_inline_stmt_ctx || r == Rule::let_inline_stmt_noctx || r == Rule::let_stmt
        || r == Rule::let_math_stmt
}

impl Formatter {
    /// `current` and an expression joined on one line when it fits, or the expression on a
    /// new, deeper line.
    fn join_rendered_expr_with_wrap(
        &self,
        text: &Vec<char>,
        e: &Cst,
        current: Vec<char>,
        depth: usize,
        inline_sep: &Vec<char>,
        break_sep: &Vec<char>,
        extra: usize,
        inline_expr: &Vec<char>,
        force: bool,
    ) -> (r: Vec<char>)
        requires
            wf(e.tree(), text@.len()),
            depth + 1 + 2 * height(e.tree()) <= usize::MAX,
        ensures
            r@ == join_rendered(
                self.layout(),
                text@,
                e.tree(),
                current@,
                depth as nat,
                inline_sep@,
                break_sep@,
                extra as nat,
                inline_expr@,
                force,
            ),
        decreases e, 21nat,
    {
        let force = force || contains_char(&current, '\n') || (contains_char(inline_expr, '\n')
            && !self.allows_inline_multiline_expr(inline_expr));
        let joined = cat3(&current, inline_sep, inline_expr);
        if !force && self.line_fits(depth, extra, &joined) {
            joined
        } else {
            let rendered = self.to_string_cst(text, e, depth + 1);
            self.append_indented_rendered(cat(&current, break_sep), &rendered, depth)
        }
    }

    fn join_expr_with_wrap(
        &self,
        text: &Vec<char>,
        e: &Cst,
        current: Vec<char>,
        depth: usize,
        inline_sep: &Vec<char>,
        break_sep: &Vec<char>,
        extra: usize,
    ) -> (r: Vec<char>)
        requires
            wf(e.tree(), text@.len()),
            depth + 1 + 2 * height(e.tree()) <= usize::MAX,
        ensures
            r@ == join_expr(
                self.layout(),
                text@,
                e.tree(),
                current@,
                depth as nat,
                inline_sep@,
                break_sep@,
                extra as nat,
            ),
        decreases e, 22nat,
    {
        let inline_expr = self.to_string_cst(text, e, depth);
        self.join_rendered_expr_with_wrap(
            text,
            e,
            current,
            depth,
            inline_sep,
            break_sep,
            extra,
            &inline_expr,
            false,
        )
    }

    fn format_match_arm_rhs(
        &self,
        text: &Vec<char>,
        e: &Cst,
        current: Vec<char>,
        depth: usize,
        extra: usize,
    ) -> (r: Vec<char>)
        requires
            wf(e.tree(), text@.len()),
            depth + 1 + 2 * height(e.tree()) <= usize::MAX,
        ensures
            r@ == arm_rhs(self.layout(), text@, e.tree(), current@, depth as nat, extra as nat),
        decreases e, 22nat,
    {
        let inline_expr = self.to_string_cst(text, e, depth);
        let structured = self.is_structured_match_arm_expr(e);
        self.join_rendered_expr_with_wrap(
            text,
            e,
            current,
            depth,
            &lit(" -> "),
            &lit(" ->"),
            extra,
            &inline_expr,
            structured,
        )
    }

    fn format_assignment_rhs(
        &self,
        text: &Vec<char>,
        e: &Cst,
        rendered: &Vec<char>,
        current: Vec<char>,
        binding_depth: usize,
        extra: usize,
    ) -> (r: Vec<char>)
        requires
            wf(e.tree(), text@.len()),
            binding_depth + 1 + 2 * height(e.tree()) <= usize::MAX,
        ensures
            r@ == assignment_rhs(
                self.layout(),
                text@,
                e.tree(),
                rendered@,
                current@,
                binding_depth as nat,
                extra as nat,
            ),
        decreases e, 22nat,
    {
        let brk = self.should_break_assignment_rhs(rendered);
        self.join_rendered_expr_with_wrap(
            text,
            e,
            current,
            binding_depth,
            &lit(" = "),
            &lit(" ="),
            extra,
            rendered,
            brk,
        )
    }

    /// The flat form of an application, whether it must break, and whether its arguments
    /// are separated by spaces.
    fn application_flat_output(&self, text: &Vec<char>, c: &Cst, depth: usize) -> (r: (
        Vec<char>,
        bool,
        bool,
    ))
        requires
            wf(c.tree(), text@.len()),
            depth + 2 * height(c.tree()) <= usize::MAX + 1,
            c.inner.len() > 0,
        ensures
            (r.0@, r.1, r.2) == app_flat(
                self.layout(),
                text@,
                c.tree(),
                depth as nat,
                c.tree().inner.len(),
            ),
        decreases c, 17nat,
    {
        let ghost t = c.tree();
        proof {
            lemma_child_height(t, 0);
            assert(t.inner[0] == c.inner@[0].tree());
        }
        let first = self.to_string_cst(text, &c.inner[0], depth);
        let spaced = !crate::text::same_chars(&first, &lit("document"));
        let mut force = contains_char(&first, '\n');
        let mut out = first;
        let mut i: usize = 1;
        while i < c.inner.len()
            invariant
                t == c.tree(),
                wf(t, text@.len()),
                depth + 2 * height(t) <= usize::MAX + 1,
                1 <= i <= c.inner.len(),
                (out@, force, spaced) == app_flat(self.layout(), text@, t, depth as nat, i as nat),
            decreases c.inner.len() - i,
        {
            proof {
                lemma_child_height(t, i as int);
                assert(t.inner[i as int] == c.inner@[i as int].tree());
            }
            let s = self.to_string_cst(text, &c.inner[i], depth);
            force = force || c.inner[i].rule == Rule::comments;
            if spaced {
                out = cat3(&out, &lit(" "), &s);
            } else {
                out = cat(&out, &s);
            }
            i = i + 1;
        }
        (out, force, spaced)
    }

    /// An application with each argument on a line of its own.
    fn application_broken(&self, text: &Vec<char>, c: &Cst, depth: usize) -> (r: Vec<char>)
        requires
            wf(c.tree(), text@.len()),
            depth + 2 * height(c.tree()) <= usize::MAX + 1,
            c.inner.len() > 0,
        ensures
            r@ == app_broken(self.layout(), text@, c.tree(), depth as nat, c.tree().inner.len()),
        decreases c, 17nat,
    {
        let ghost t = c.tree();
        proof {
            lemma_child_height(t, 0);
            assert(t.inner[0] == c.inner@[0].tree());
        }
        let mut out = self.to_string_cst(text, &c.inner[0], depth);
        let mut i: usize = 1;
        while i < c.inner.len()
            invariant
                t == c.tree(),
                wf(t, text@.len()),
                depth + 2 * height(t) <= usize::MAX + 1,
                1 <= i <= c.inner.len(),
                out@ == app_broken(self.layout(), text@, t, depth as nat, i as nat),
            decreases c.inner.len() - i,
        {
            proof {
                lemma_child_height(t, i as int);
                assert(t.inner[i as int] == c.inner@[i as int].tree());
            }
            let rendered = self.to_string_cst(text, &c.inner[i], depth + 1);
            out = self.append_indented_rendered(out, &rendered, depth);
            i = i + 1;
        }
        out
    }

    fn application(&self, text: &Vec<char>, c: &Cst, d: usize) -> (r: Vec<char>)
        requires
            wf(c.tree(), text@.len()),
            d + 2 * height(c.tree()) <= usize::MAX + 1,
        ensures
            r@ == application(self.layout(), text@, c.tree(), d as nat),
        decreases c, 18nat,
    {
        if c.inner.len() == 0 {
            return Vec::new();
        }
        let (flat, force, spaced) = self.application_flat_output(text, c, d);
        let aggressive = c.inner.len() - 1 >= 3 && max_line_width_of(&flat) > self.line_width()
            / 2;
        if !spaced || (!force && !aggressive && self.line_fits(d, 0, &flat)) {
            flat
        } else {
            self.application_broken(text, c, d)
        }
    }
}

pub fn copy_of(v: &Vec<char>) -> (r: Vec<char>)
    ensures
        r@ == v@,
{
    let r = slice_of(v, 0, v.len());
    assert(v@.subrange(0, v.len() as int) =~= v@);
    r
}

impl Formatter {
    /// What stands between joined children.
    fn separator_of(&self, r: Rule, d: usize) -> (sep: Vec<char>)
        ensures
            sep@ == separator(self.layout(), r, d as nat),
    {
        let nl = self.newline(d);
        if r == Rule::block_cmd || r == Rule::inline_cmd {
            lit(" ")
        } else if r == Rule::type_prod {
            lit(" * ")
        } else if r == Rule::dyadic_expr || r == Rule::match_expr || r == Rule::unary_operator_expr {
            lit(" ")
        } else if r == Rule::vertical || r == Rule::horizontal_bullet_list {
            nl
        } else if r == Rule::horizontal_list {
            cat_lit(&nl, "|")
        } else if r == Rule::unary {
            lit("#")
        } else if r == Rule::type_optional {
            lit(" ?-> ")
        } else if r == Rule::list {
            lit_cat(";", &nl)
        } else if r == Rule::tuple {
            lit(", ")
        } else if r == Rule::record || r == Rule::type_record {
            nl
        } else if r == Rule::type_block_cmd || r == Rule::type_inline_cmd || r
            == Rule::type_math_cmd {
            lit_cat(";", &nl)
        } else if r == Rule::horizontal_single {
            lit("")
        } else if r == Rule::program_saty || r == Rule::program_satyh {
            nl
        } else {
            lit(" ")
        }
    }

    fn binding_prefix_width_of(&self, r: Rule) -> (w: usize)
        ensures
            w == binding_prefix_width(r),
    {
        if r == Rule::let_block_stmt_ctx || r == Rule::let_block_stmt_noctx {
            kw_width_of("let-block")
        } else if r == Rule::let_inline_stmt_ctx || r == Rule::let_inline_stmt_noctx {
            kw_width_of("let-inline")
        } else if r == Rule::let_math_stmt {
            kw_width_of("let-math")
        } else if r == Rule::let_stmt {
            kw_width_of("let")
        } else {
            0
        }
    }

    /// Joins a child of a declaration, a variant or a signature entry.
    fn join_declaration(&self, text: &Vec<char>, c: &Cst, d: usize, a: Folding, i: usize, s: Vec<char>) -> (r: Folding)
        requires
            wf(c.tree(), text@.len()),
            d + 2 * height(c.tree()) <= usize::MAX + 1,
            i < c.inner.len(),
            a.cnt <= i,
            a.mark <= text@.len(),
            s@ == render(self.layout(), text@, c.tree().inner[i as int], d as nat),
            c.rule == Rule::variant_constructor || c.rule == Rule::let_mutable_stmt || c.rule
                == Rule::type_stmt || c.rule == Rule::let_rec_stmt || c.rule == Rule::sig_val_stmt
                || c.rule == Rule::sig_direct_stmt,
        ensures
            r.acc() == step(self.layout(), text@, c.tree(), d as nat, a.acc(), i as nat),
            r.cnt <= i + 1,
            r.mark <= text@.len(),
        decreases c, 5nat,
    {
        let ghost t = c.tree();
        proof {
            lemma_child_height(t, i as int);
            assert(t.inner[i as int] == c.inner@[i as int].tree());
        }
        let r = c.rule;
        let cr = c.inner[i].rule;
        let nl = self.newline(d);
        let sep = self.separator_of(r, d);
        if r == Rule::variant_constructor {
            let o = if a.out.len() == 0 {
                s
            } else if !(cr == Rule::unary && starts_with(&s, &lit("("))) {
                cat3(&a.out, &sep, &s)
            } else {
                cat(&a.out, &s)
            };
            set_out(a, o)
        } else if r == Rule::let_mutable_stmt {
            let o = if a.out.len() == 0 {
                s
            } else if cr == Rule::var {
                cat3(&a.out, &lit(" "), &s)
            } else if cr == Rule::expr {
                self.join_expr_with_wrap(
                    text,
                    &c.inner[i],
                    copy_of(&a.out),
                    d,
                    &lit(" <- "),
                    &lit(" <-"),
                    kw_width_of("let-mutable"),
                )
            } else {
                cat(&a.out, &s)
            };
            set_out(a, o)
        } else if r == Rule::type_stmt {
            let o = if a.out.len() == 0 {
                s
            } else if cr == Rule::type_inner {
                if a.flag {
                    cat(&cat(&cat3(&a.out, &nl, &lit("and")), &lit(" ")), &s)
                } else {
                    cat3(&a.out, &lit(" and "), &s)
                }
            } else {
                cat(&a.out, &s)
            };
            set_out(a, o)
        } else if r == Rule::let_rec_stmt {
            if a.out.len() == 0 {
                let cnt = if cr != Rule::comments {
                    a.cnt + 1
                } else {
                    a.cnt
                };
                Folding { out: s, cnt, ..a }
            } else if cr == Rule::let_rec_inner {
                let o = if a.cnt + 1 > 2 {
                    cat3(&a.out, &lit(" and "), &s)
                } else {
                    cat(&a.out, &s)
                };
                let cnt = a.cnt + 1;
                Folding { out: o, cnt, ..a }
            } else {
                let o = cat(&a.out, &s);
                set_out(a, o)
            }
        } else {
            let s = if r == Rule::sig_val_stmt && cr == Rule::bin_operator {
                cat3(&lit("("), &s, &lit(")"))
            } else {
                s
            };
            let o = if a.out.len() == 0 {
                s
            } else if cr == Rule::var || cr == Rule::inline_cmd_name || cr == Rule::block_cmd_name {
                cat3(&a.out, &lit(" "), &s)
            } else if cr == Rule::bin_operator {
                cat(&cat3(&a.out, &lit(" ("), &s), &lit(")"))
            } else if cr == Rule::type_expr {
                cat3(&a.out, &lit(": "), &s)
            } else if cr == Rule::comments {
                if ends_white_of(&a.out) {
                    cat(&a.out, &s)
                } else {
                    cat3(&a.out, &nl, &s)
                }
            } else {
                cat3(&a.out, &lit(" "), &s)
            };
            set_out(a, o)
        }
    }

    /// Joins a child of a `let` binding.
    fn join_binding(&self, text: &Vec<char>, c: &Cst, d: usize, a: Folding, i: usize, s: Vec<char>) -> (r: Folding)
        requires
            wf(c.tree(), text@.len()),
            d + 2 * height(c.tree()) <= usize::MAX + 1,
            i < c.inner.len(),
            a.cnt <= i,
            a.mark <= text@.len(),
            s@ == render(self.layout(), text@, c.tree().inner[i as int], d as nat),
            is_binding(c.rule),
        ensures
            r.acc() == step(self.layout(), text@, c.tree(), d as nat, a.acc(), i as nat),
            r.cnt <= i + 1,
            r.mark <= text@.len(),
        decreases c, 5nat,
    {
        let ghost t = c.tree();
        proof {
            lemma_child_height(t, i as int);
            assert(t.inner[i as int] == c.inner@[i as int].tree());
        }
        let r = c.rule;
        let cr = c.inner[i].rule;
        let nl = self.newline(d);
        let sep = self.separator_of(r, d);
        let o = if a.out.len() == 0 {
            s
        } else if cr == Rule::var || cr == Rule::block_cmd_name {
            cat3(&a.out, &lit(" "), &s)
        } else if cr == Rule::bin_operator {
            cat(&cat3(&a.out, &lit(" ("), &s), &lit(")"))
        } else if cr == Rule::type_expr {
            cat3(&a.out, &lit(": "), &s)
        } else if cr == Rule::constraint {
            let deeper = self.to_string_cst(text, &c.inner[i], d + 1);
            self.append_indented_rendered(copy_of(&a.out), &deeper, d)
        } else if cr == Rule::expr {
            if i > 0 && c.inner[i - 1].rule == Rule::comments {
                assert(t.inner[i - 1] == c.inner@[i - 1].tree());
                let deeper = self.to_string_cst(text, &c.inner[i], d + 1);
                cat(&a.out, &deeper)
            } else {
                if i > 0 {
                    assert(t.inner[i - 1] == c.inner@[i - 1].tree());
                }
                let extra = self.binding_prefix_width_of(r);
                self.format_assignment_rhs(text, &c.inner[i], &s, copy_of(&a.out), d, extra)
            }
        } else if cr == Rule::comments {
            if i + 1 < c.inner.len() && c.inner[i + 1].rule == Rule::expr {
                assert(t.inner[i + 1] == c.inner@[i + 1].tree());
                let deeper = self.to_string_cst(text, &c.inner[i], d + 1);
                self.append_indented_rendered(cat_lit(&a.out, " ="), &deeper, d)
            } else {
                if i + 1 < c.inner.len() {
                    assert(t.inner[i + 1] == c.inner@[i + 1].tree());
                }
                cat(&a.out, &s)
            }
        } else {
            cat3(&a.out, &lit(" "), &s)
        };
        set_out(a, o)
    }

}


/// Rules whose children are joined by `join_structure`.
pub open spec fn structure_rule(r: Rule) -> bool {
    ||| r == Rule::math_cmd_expr_arg
    ||| r == Rule::math_cmd_expr_option
    ||| r == Rule::cmd_expr_option
    ||| r == Rule::pat_cons
    ||| r == Rule::pat_variant
    ||| r == Rule::constraint
    ||| r == Rule::record
    ||| r == Rule::type_record
    ||| r == Rule::type_inner
    ||| r == Rule::type_variant
    ||| r == Rule::let_rec_inner
    ||| r == Rule::let_rec_matcharm
    ||| r == Rule::match_arm
    ||| r == Rule::match_expr
}

pub fn structure_rule_of(r: Rule) -> (b: bool)
    ensures
        b == structure_rule(r),
{
    r == Rule::math_cmd_expr_arg || r == Rule::math_cmd_expr_option || r == Rule::cmd_expr_option
        || r == Rule::pat_cons || r == Rule::pat_variant || r == Rule::constraint || r
        == Rule::record || r == Rule::type_record || r == Rule::type_inner || r
        == Rule::type_variant || r == Rule::let_rec_inner || r == Rule::let_rec_matcharm || r
        == Rule::match_arm || r == Rule::match_expr
}

impl Formatter {
    /// Joins a child of a command argument, a pattern, a record, a type definition, a
    /// recursive binding or a match.
    #[verifier::rlimit(40)]
    fn join_structure(&self, text: &Vec<char>, c: &Cst, d: usize, a: Folding, i: usize, s: Vec<char>) -> (r: Folding)
        requires
            wf(c.tree(), text@.len()),
            d + 2 * height(c.tree()) <= usize::MAX + 1,
            i < c.inner.len(),
            a.cnt <= i,
            a.mark <= text@.len(),
            s@ == render(self.layout(), text@, c.tree().inner[i as int], d as nat),
            structure_rule(c.rule),
        ensures
            r.acc() == step(self.layout(), text@, c.tree(), d as nat, a.acc(), i as nat),
            r.cnt <= i + 1,
            r.mark <= text@.len(),
        decreases c, 5nat,
    {
        let ghost t = c.tree();
        proof {
            lemma_child_height(t, i as int);
            assert(t.inner[i as int] == c.inner@[i as int].tree());
        }
        let r = c.rule;
        let cr = c.inner[i].rule;
        let nl = self.newline(d);
        let sep = self.separator_of(r, d);
        if r == Rule::math_cmd_expr_arg || r == Rule::math_cmd_expr_option {
            let o = if cr == Rule::math_list || cr == Rule::math_single {
                cat(&cat3(&a.out, &lit("{ "), &s), &lit(" }"))
            } else if cr == Rule::horizontal_list || cr == Rule::horizontal_bullet_list || cr
                == Rule::horizontal_single {
                cat(&cat3(&a.out, &lit("!{ "), &s), &lit(" }"))
            } else if cr == Rule::vertical || cr == Rule::record || cr == Rule::list {
                cat3(&a.out, &lit("!"), &s)
            } else if cr == Rule::expr {
                cat(&cat3(&a.out, &lit("!("), &s), &lit(")"))
            } else {
                cat(&a.out, &s)
            };
            set_out(a, o)
        } else if r == Rule::cmd_expr_option {
            let s = if cr == Rule::expr {
                cat3(&lit("("), &s, &lit(")"))
            } else {
                s
            };
            let o = if a.out.len() == 0 {
                s
            } else if cr == Rule::expr {
                cat(&a.out, &s)
            } else {
                cat3(&a.out, &sep, &s)
            };
            set_out(a, o)
        } else if r == Rule::pat_cons || r == Rule::pat_variant {
            let o = if a.out.len() == 0 {
                s
            } else if cr == Rule::pattern {
                if starts_with(&s, &lit("(")) {
                    cat(&a.out, &s)
                } else {
                    cat3(&a.out, &lit(" "), &s)
                }
            } else if (r == Rule::pat_cons && cr == Rule::pat_variant) || (r == Rule::pat_variant
                && cr == Rule::variant_name) {
                cat3(&a.out, &lit(" "), &s)
            } else if r == Rule::pat_cons && cr == Rule::pat_as {
                cat3(&a.out, &lit(" :: "), &s)
            } else if cr == Rule::comments {
                cat3(&a.out, &nl, &s)
            } else {
                cat(&a.out, &s)
            };
            set_out(a, o)
        } else if r == Rule::constraint {
            let o = if a.out.len() == 0 {
                s
            } else if cr == Rule::type_param {
                cat3(&a.out, &lit(" "), &s)
            } else if cr == Rule::type_record {
                cat3(&a.out, &lit(" :: "), &s)
            } else if cr == Rule::comments {
                cat3(&a.out, &nl, &s)
            } else {
                cat(&a.out, &s)
            };
            set_out(a, o)
        } else if r == Rule::record || r == Rule::type_record {
            if cr == Rule::unary {
                let o = cat(&cat(&a.out, &s), &lit(" with "));
                set_out(a, o)
            } else {
                let s = if cr == Rule::record_unit || cr == Rule::type_record_unit {
                    cat_lit(&s, ";")
                } else {
                    s
                };
                let o = cat(&a.out, &s);
                let has_next = i + 1 < c.inner.len();
                let nr = if has_next {
                    assert(t.inner[i + 1] == c.inner@[i + 1].tree());
                    c.inner[i + 1].rule
                } else {
                    Rule::misc
                };
                let o = if has_next && cr != Rule::comments && nr == Rule::comments {
                    cat(&o, &sep)
                } else if has_next && (nr == Rule::record_unit || nr == Rule::type_record_unit) {
                    cat(&o, &sep)
                } else if !has_next && cr == Rule::comments {
                    trim_end_of(&o)
                } else {
                    o
                };
                set_out(a, o)
            }
        } else if r == Rule::type_inner {
            let o = if cr == Rule::typename {
                if a.out.len() == 0 {
                    cat_lit(&s, " = ")
                } else {
                    cat(&cat3(&a.out, &lit(" "), &s), &lit(" = "))
                }
            } else if cr == Rule::type_variant {
                if a.flag {
                    let head = cat3(&trim_end_of(&a.out), &one('\n'), &self.indent(d + 1));
                    cat3(&head, &lit("| "), &s)
                } else if a.flag2 {
                    cat3(&a.out, &lit(" | "), &s)
                } else {
                    cat(&a.out, &s)
                }
            } else {
                cat(&a.out, &s)
            };
            let flag2 = a.flag2 || cr == Rule::type_variant;
            Folding { out: o, flag2, ..a }
        } else if r == Rule::type_variant {
            let o = if a.out.len() == 0 {
                s
            } else if cr == Rule::type_expr {
                cat3(&a.out, &lit(" of "), &s)
            } else {
                cat(&a.out, &s)
            };
            set_out(a, o)
        } else if r == Rule::let_rec_inner {
            if a.out.len() == 0 {
                set_out(a, s)
            } else if cr == Rule::let_rec_matcharm {
                let o = cat3(&cat(&a.out, &nl), &lit("| "), &trim_of(&s));
                set_out(a, o)
            } else if cr == Rule::type_expr {
                let o = cat3(&a.out, &lit(": "), &s);
                Folding { out: o, flag: true, ..a }
            } else if cr == Rule::arg {
                if a.flag {
                    let o = cat3(&a.out, &lit(" | "), &s);
                    Folding { out: o, flag: false, ..a }
                } else {
                    let o = cat3(&a.out, &lit(" "), &s);
                    set_out(a, o)
                }
            } else if cr == Rule::expr {
                let bd = if d > 0 {
                    d - 1
                } else {
                    0
                };
                let o = self.format_assignment_rhs(
                    text,
                    &c.inner[i],
                    &s,
                    copy_of(&a.out),
                    bd,
                    kw_width_of("let-rec"),
                );
                set_out(a, o)
            } else {
                let o = cat(&a.out, &s);
                set_out(a, o)
            }
        } else if r == Rule::let_rec_matcharm {
            let o = if a.out.len() == 0 {
                s
            } else if cr == Rule::arg {
                cat3(&a.out, &lit(" "), &s)
            } else if cr == Rule::expr {
                let bd = if d > 0 {
                    d - 1
                } else {
                    0
                };
                self.format_assignment_rhs(
                    text,
                    &c.inner[i],
                    &s,
                    copy_of(&a.out),
                    bd,
                    width_of(&lit("| ")),
                )
            } else {
                cat(&a.out, &s)
            };
            set_out(a, o)
        } else if r == Rule::match_arm {
            let o = if a.out.len() == 0 {
                s
            } else if cr == Rule::pat_as || cr == Rule::match_guard {
                cat3(&a.out, &lit(" "), &s)
            } else if cr == Rule::expr {
                self.format_match_arm_rhs(
                    text,
                    &c.inner[i],
                    copy_of(&a.out),
                    d,
                    width_of(&lit("| ")),
                )
            } else {
                cat(&a.out, &s)
            };
            set_out(a, o)
        } else {
            let o = if a.out.len() == 0 {
                if cr == Rule::expr {
                    cat3(&lit("match "), &s, &lit(" with"))
                } else {
                    s
                }
            } else if cr == Rule::expr {
                cat(&cat(&cat3(&a.out, &lit(" "), &lit("match ")), &s), &lit(" with"))
            } else if cr == Rule::match_arm {
                cat3(&cat(&a.out, &nl), &lit("| "), &s)
            } else {
                cat(&a.out, &s)
            };
            set_out(a, o)
        }
    }
}

/// Rules whose children are joined by `join_control`.
pub open spec fn control_rule(r: Rule) -> bool {
    ||| r == Rule::ctrl_if
    ||| r == Rule::ctrl_then
    ||| r == Rule::ctrl_else
    ||| r == Rule::ctrl_while
    ||| r == Rule::unary
    ||| r == Rule::lambda
    ||| r == Rule::record_unit
    ||| r == Rule::type_record_unit
    ||| r == Rule::type_application
    ||| r == Rule::assignment
    ||| r == Rule::bind_stmt
    ||| r == Rule::type_expr
    ||| r == Rule::module_stmt
    ||| r == Rule::struct_stmt
    ||| r == Rule::sig_stmt
}

pub fn control_rule_of(r: Rule) -> (b: bool)
    ensures
        b == control_rule(r),
{
    r == Rule::ctrl_if || r == Rule::ctrl_then || r == Rule::ctrl_else || r == Rule::ctrl_while
        || r == Rule::unary || r == Rule::lambda || r == Rule::record_unit || r
        == Rule::type_record_unit || r == Rule::type_application || r == Rule::assignment || r
        == Rule::bind_stmt || r == Rule::type_expr || r == Rule::module_stmt || r
        == Rule::struct_stmt || r == Rule::sig_stmt
}

/// Rules whose children are joined by one of the other joining functions.
pub open spec fn declaration_rule(r: Rule) -> bool {
    ||| r == Rule::variant_constructor
    ||| r == Rule::let_mutable_stmt
    ||| r == Rule::type_stmt
    ||| r == Rule::let_rec_stmt
    ||| r == Rule::sig_val_stmt
    ||| r == Rule::sig_direct_stmt
}

impl Formatter {
    /// Joins a child of a conditional, a loop, an operator, a function, a record field, an
    /// assignment, a binding expression, a function type or a module.
    #[verifier::rlimit(40)]
    fn join_control(&self, text: &Vec<char>, c: &Cst, d: usize, a: Folding, i: usize, s: Vec<char>) -> (r: Folding)
        requires
            wf(c.tree(), text@.len()),
            d + 2 * height(c.tree()) <= usize::MAX + 1,
            i < c.inner.len(),
            a.cnt <= i,
            a.mark <= text@.len(),
            s@ == render(self.layout(), text@, c.tree().inner[i as int], d as nat),
            control_rule(c.rule),
        ensures
            r.acc() == step(self.layout(), text@, c.tree(), d as nat, a.acc(), i as nat),
            r.cnt <= i + 1,
            r.mark <= text@.len(),
        decreases c, 5nat,
    {
        let ghost t = c.tree();
        proof {
            lemma_child_height(t, i as int);
            assert(t.inner[i as int] == c.inner@[i as int].tree());
        }
        let r = c.rule;
        let cr = c.inner[i].rule;
        let nl = self.newline(d);
        let sep = self.separator_of(r, d);
        if r == Rule::ctrl_if {
            let o = if cr == Rule::expr {
                cat3(&a.out, &lit("if "), &s)
            } else if cr == Rule::ctrl_then || cr == Rule::ctrl_else || cr == Rule::comments {
                cat3(&a.out, &nl, &s)
            } else {
                cat(&a.out, &s)
            };
            set_out(a, o)
        } else if r == Rule::ctrl_then || r == Rule::ctrl_else {
            let o = if a.out.len() == 0 {
                cat(&nl, &s)
            } else if s.len() == 0 {
                copy_of(&a.out)
            } else if ends_with(&a.out, &nl) {
                cat(&a.out, &s)
            } else {
                cat3(&a.out, &sep, &s)
            };
            set_out(a, o)
        } else if r == Rule::ctrl_while {
            if cr == Rule::expr {
                let o = if a.cnt == 0 {
                    cat(&cat(&a.out, &s), &lit(" do "))
                } else {
                    cat(&a.out, &s)
                };
                let cnt = a.cnt + 1;
                Folding { out: o, cnt, ..a }
            } else {
                let o = cat(&a.out, &s);
                set_out(a, o)
            }
        } else if r == Rule::unary {
            let s = if cr == Rule::bin_operator {
                cat3(&lit("( "), &s, &lit(" )"))
            } else if cr == Rule::expr {
                cat3(&lit("("), &s, &lit(")"))
            } else {
                s
            };
            let o = if a.out.len() == 0 {
                s
            } else if crate::text::same_chars(&a.out, &lit("!")) || crate::text::same_chars(
                &a.out,
                &lit("&"),
            ) || crate::text::same_chars(&a.out, &lit("~")) {
                cat(&a.out, &s)
            } else if cr == Rule::bin_operator || cr == Rule::expr {
                cat(&a.out, &s)
            } else {
                cat3(&a.out, &sep, &s)
            };
            set_out(a, o)
        } else if r == Rule::lambda {
            let o = if a.out.len() == 0 {
                s
            } else if cr == Rule::pattern {
                cat3(&a.out, &lit(" "), &s)
            } else if cr == Rule::comments {
                cat(&a.out, &s)
            } else {
                self.join_expr_with_wrap(
                    text,
                    &c.inner[i],
                    copy_of(&a.out),
                    d,
                    &lit(" -> "),
                    &lit(" ->"),
                    0,
                )
            };
            set_out(a, o)
        } else if r == Rule::record_unit {
            let o = if a.out.len() == 0 {
                s
            } else if cr == Rule::var_ptn {
                cat3(&a.out, &lit(" "), &s)
            } else if cr == Rule::expr {
                self.join_expr_with_wrap(
                    text,
                    &c.inner[i],
                    copy_of(&a.out),
                    d,
                    &lit(" = "),
                    &lit(" ="),
                    0,
                )
            } else {
                cat(&a.out, &s)
            };
            set_out(a, o)
        } else if r == Rule::type_record_unit {
            let o = if a.out.len() == 0 {
                s
            } else if cr == Rule::var {
                cat3(&a.out, &lit(" "), &s)
            } else if cr == Rule::type_expr {
                cat3(&a.out, &lit(": "), &s)
            } else {
                cat(&a.out, &s)
            };
            set_out(a, o)
        } else if r == Rule::type_application {
            let o = if cr == Rule::comments {
                if ends_white_of(&a.out) {
                    cat(&a.out, &s)
                } else {
                    cat3(&a.out, &nl, &s)
                }
            } else {
                let o = if a.out.len() > 0 {
                    cat(&a.out, &sep)
                } else {
                    copy_of(&a.out)
                };
                if cr == Rule::type_expr {
                    cat(&cat3(&o, &lit("("), &s), &lit(")"))
                } else {
                    cat(&o, &s)
                }
            };
            set_out(a, o)
        } else if r == Rule::assignment {
            let o = if a.out.len() == 0 {
                s
            } else if cr == Rule::var {
                cat3(&a.out, &lit(" "), &s)
            } else if cr == Rule::dyadic_expr || cr == Rule::unary_operator_expr || cr
                == Rule::application || cr == Rule::unary || cr == Rule::variant_constructor {
                self.join_expr_with_wrap(
                    text,
                    &c.inner[i],
                    copy_of(&a.out),
                    d,
                    &lit(" <- "),
                    &lit(" <-"),
                    0,
                )
            } else {
                cat(&a.out, &s)
            };
            set_out(a, o)
        } else if r == Rule::bind_stmt {
            let o = if cr == Rule::let_stmt || cr == Rule::let_rec_stmt || cr == Rule::let_math_stmt
                || cr == Rule::let_mutable_stmt || cr == Rule::open_stmt {
                if i == 0 {
                    cat(&cat_lit(&cat(&a.out, &s), " in"), &nl)
                } else {
                    cat(&cat_lit(&cat3(&a.out, &nl, &s), " in"), &nl)
                }
            } else if cr == Rule::expr {
                if starts_with(&s, &lit("let")) {
                    cat(&a.out, &trim_start_of(&s))
                } else if contains_char(&s, '\n') {
                    let deeper = self.to_string_cst(text, &c.inner[i], d + 1);
                    cat3(&a.out, &self.indent(1), &trim_start_of(&deeper))
                } else {
                    cat(&a.out, &trim_start_of(&s))
                }
            } else if cr == Rule::comments {
                if ends_with(&a.out, &lit("in")) {
                    cat3(&a.out, &nl, &s)
                } else {
                    cat(&a.out, &s)
                }
            } else {
                cat(&a.out, &s)
            };
            set_out(a, o)
        } else if r == Rule::type_expr {
            let o = if i == 0 {
                s
            } else {
                assert(t.inner[i - 1] == c.inner@[i - 1].tree());
                if c.inner[i - 1].rule == Rule::type_optional {
                    cat3(&a.out, &lit(" ?-> "), &s)
                } else {
                    cat3(&a.out, &lit(" -> "), &s)
                }
            };
            set_out(a, o)
        } else if r == Rule::module_stmt {
            let o = if i == 0 {
                s
            } else if cr == Rule::sig_stmt {
                cat3(&a.out, &lit(": "), &s)
            } else if cr == Rule::struct_stmt {
                cat3(&a.out, &lit(" = "), &s)
            } else {
                cat(&a.out, &s)
            };
            set_out(a, o)
        } else if r == Rule::struct_stmt {
            let pr = if i > 0 {
                assert(t.inner[i - 1] == c.inner@[i - 1].tree());
                c.inner[i - 1].rule
            } else {
                Rule::misc
            };
            let blank = cat(&one('\n'), &nl);
            let cur = if a.out.len() == 0 || ends_with(&a.out, &blank) {
                copy_of(&a.out)
            } else if i > 0 && pr == Rule::comments {
                copy_of(&a.out)
            } else if i > 0 && pr != cr {
                cat(&cat(&a.out, &one('\n')), &nl)
            } else if !contains_char(&s, '\n') {
                cat(&a.out, &nl)
            } else if pr == Rule::let_stmt || pr == Rule::let_rec_stmt {
                cat(&cat(&a.out, &one('\n')), &nl)
            } else if cr == Rule::let_stmt || cr == Rule::let_rec_stmt {
                cat(&cat(&a.out, &one('\n')), &nl)
            } else if cr == Rule::comments {
                copy_of(&a.out)
            } else {
                cat(&a.out, &nl)
            };
            let o = cat(&cur, &s);
            set_out(a, o)
        } else {
            let o = if cr == Rule::sig_val_stmt || cr == Rule::sig_type_stmt {
                cat3(&a.out, &nl, &s)
            } else if cr == Rule::module_name {
                cat3(&a.out, &lit(" "), &s)
            } else if cr == Rule::struct_stmt {
                cat3(&a.out, &lit("= struct"), &s)
            } else {
                cat(&a.out, &s)
            };
            set_out(a, o)
        }
    }

    /// Joins a child of text, math, lists, sequences of statements and other nodes.
    #[verifier::rlimit(40)]
    fn join_text(&self, text: &Vec<char>, c: &Cst, d: usize, a: Folding, i: usize, s: Vec<char>) -> (r: Folding)
        requires
            wf(c.tree(), text@.len()),
            d + 2 * height(c.tree()) <= usize::MAX + 1,
            i < c.inner.len(),
            a.cnt <= i,
            a.mark <= text@.len(),
            s@ == render(self.layout(), text@, c.tree().inner[i as int], d as nat),
            !declaration_rule(c.rule),
            !is_binding(c.rule),
            !structure_rule(c.rule),
            !control_rule(c.rule),
        ensures
            r.acc() == step(self.layout(), text@, c.tree(), d as nat, a.acc(), i as nat),
            r.cnt <= i + 1,
            r.mark <= text@.len(),
        decreases c, 5nat,
    {
        let ghost t = c.tree();
        proof {
            lemma_child_height(t, i as int);
            assert(t.inner[i as int] == c.inner@[i as int].tree());
            assert(wf(t.inner[i as int], text@.len()));
        }
        let r = c.rule;
        let cr = c.inner[i].rule;
        let nl = self.newline(d);
        let sep = self.separator_of(r, d);
        if r == Rule::horizontal_single {
            let o = if a.out.len() == 0 {
                s
            } else if cr == Rule::regular_text && trim_of(&s).len() == 0 {
                if ends_white_of(&a.out) {
                    copy_of(&a.out)
                } else {
                    cat(&a.out, &s)
                }
            } else if cr == Rule::regular_text {
                if ends_white_of(&a.out) {
                    cat(&a.out, &trim_start_of(&s))
                } else {
                    cat(&a.out, &s)
                }
            } else if cr == Rule::comments {
                cat3(&trim_end_of(&a.out), &nl, &s)
            } else {
                cat(&a.out, &s)
            };
            set_out(a, o)
        } else if r == Rule::preamble {
            let s = trim_of(&s);
            let o = if a.out.len() == 0 {
                s
            } else if s.len() == 0 {
                copy_of(&a.out)
            } else if cr == Rule::module_stmt {
                cat3(&a.out, &lit("\n\n"), &s)
            } else {
                cat3(&a.out, &one('\n'), &s)
            };
            set_out(a, o)
        } else if r == Rule::horizontal_list {
            let o = if cr == Rule::comments {
                cat(&a.out, &s)
            } else if s.len() == 0 {
                copy_of(&a.out)
            } else {
                cat(&cat3(&a.out, &lit(" "), &s), &sep)
            };
            set_out(a, o)
        } else if r == Rule::list {
            let o = if cr == Rule::comments {
                cat(&a.out, &s)
            } else if a.out.len() == 0 {
                cat(&s, &sep)
            } else if s.len() == 0 {
                copy_of(&a.out)
            } else {
                cat3(&a.out, &s, &sep)
            };
            set_out(a, o)
        } else if r == Rule::math_single {
            let o = if a.out.len() == 0 {
                copy_of(&s)
            } else if s.len() == 0 {
                copy_of(&a.out)
            } else if ends_with(&a.out, &nl) {
                cat(&a.out, &s)
            } else if starts_with(&a.last, &one('\\')) {
                cat3(&a.out, &sep, &s)
            } else if cr == Rule::comments {
                cat3(&trim_end_of(&a.out), &nl, &s)
            } else if char_is_alphabetic(s[0]) && char_is_alphabetic(a.out[a.out.len() - 1]) {
                cat(&a.out, &s)
            } else {
                cat3(&a.out, &sep, &s)
            };
            Folding { out: o, last: s, ..a }
        } else if r == Rule::math_token {
            let o = if a.out.len() == 0 {
                s
            } else if s.len() == 0 {
                copy_of(&a.out)
            } else if ends_with(&a.out, &nl) {
                cat(&a.out, &s)
            } else if cr == Rule::math_sup || cr == Rule::math_sub {
                cat(&a.out, &s)
            } else {
                cat3(&a.out, &sep, &s)
            };
            set_out(a, o)
        } else if r == Rule::vertical {
            let o = if a.out.len() == 0 {
                s
            } else if s.len() == 0 {
                copy_of(&a.out)
            } else if ends_with(&a.out, &nl) {
                cat(&a.out, &s)
            } else if starts_with(&s, &lit("%\n")) {
                cat(&a.out, &s)
            } else {
                let cur = if self.lines_between(text, a.mark, c.inner[i].span.start) > 1 {
                    cat(&a.out, &one('\n'))
                } else {
                    copy_of(&a.out)
                };
                cat3(&cur, &sep, &s)
            };
            let mark = c.inner[i].span.end;
            Folding { out: trim_end_of(&o), mark, ..a }
        } else if r == Rule::dyadic_expr {
            let o = if a.out.len() == 0 {
                s
            } else if s.len() == 0 {
                copy_of(&a.out)
            } else if ends_with(&a.out, &nl) {
                cat(&a.out, &s)
            } else if cr == Rule::bin_operator && crate::text::same_chars(&trim_of(&s), &lit("|>")) {
                cat(&a.out, &s)
            } else {
                cat3(&a.out, &sep, &s)
            };
            set_out(a, o)
        } else if r == Rule::program_saty {
            let o = if a.out.len() == 0 {
                s
            } else if s.len() == 0 {
                copy_of(&a.out)
            } else if ends_with(&a.out, &nl) {
                cat(&a.out, &s)
            } else if starts_with(&s, &lit("%\n")) {
                cat(&a.out, &s)
            } else {
                cat3(&a.out, &sep, &s)
            };
            let o = if cr == Rule::preamble {
                cat_lit(&o, "\nin\n\n")
            } else {
                o
            };
            set_out(a, o)
        } else {
            let o = if a.out.len() == 0 {
                s
            } else if s.len() == 0 {
                copy_of(&a.out)
            } else if ends_with(&a.out, &nl) {
                cat(&a.out, &s)
            } else {
                cat3(&a.out, &sep, &s)
            };
            set_out(a, o)
        }
    }
}

/// The text laid out: white space taken from the end of each line, and a line break put at
/// the end where there is none and `final_newline` holds.
pub open spec fn tidy(s: Seq<char>, final_newline: bool) -> Seq<char> {
    let o = join(trim_end_each(split(s, '\n')), seq!['\n']);
    if final_newline && !has_suffix(o, seq!['\n']) {
        o + seq!['\n']
    } else {
        o
    }
}

/// Whether the output ends with a line break: unless `insert_final_newline` is set to false.
pub open spec fn wants_final_newline(o: FormattingOptions) -> bool {
    o.insert_final_newline != Some(false)
}

/// No line ends in white space: the character before each line break, and the last
/// character, is a line break or not white.
pub open spec fn lines_trimmed(s: Seq<char>) -> bool {
    &&& forall|i: int|
        0 < i < s.len() && #[trigger] s[i] == '\n' ==> (s[i - 1] == '\n' || !is_white(s[i - 1]))
    &&& s.len() > 0 ==> (s.last() == '\n' || !is_white(s.last()))
}

/// Lines without line breaks, each trimmed at its end and joined with line breaks, end in no
/// white space.
pub proof fn lemma_join_trimmed(parts: Seq<Seq<char>>)
    requires
        forall|k: int, j: int| 0 <= k < parts.len() && 0 <= j < parts[k].len() ==> parts[k][j] != '\n',
    ensures
        lines_trimmed(join(trim_end_each(parts), seq!['\n'])),
    decreases parts.len(),
{
    let nl = seq!['\n'];
    if parts.len() == 0 {
    } else if parts.len() == 1 {
        let t = trim_end(parts[0]);
        lemma_trim_end_last(parts[0]);
        assert(join(trim_end_each(parts), nl) == t);
        assert forall|i: int| 0 < i < t.len() && #[trigger] t[i] == '\n' implies (t[i - 1] == '\n'
            || !is_white(t[i - 1])) by {
            assert(t[i] == parts[0][i]);
        }
    } else {
        let rest = parts.drop_last();
        lemma_join_trimmed(rest);
        assert(trim_end_each(parts).drop_last() =~= trim_end_each(rest));
        let a = join(trim_end_each(rest), nl);
        let t = trim_end(parts.last());
        lemma_trim_end_last(parts.last());
        let r = a + nl + t;
        assert(join(trim_end_each(parts), nl) == r);
        assert forall|i: int| 0 < i < r.len() && #[trigger] r[i] == '\n' implies (r[i - 1] == '\n'
            || !is_white(r[i - 1])) by {
            if i < a.len() {
                assert(r[i] == a[i]);
                assert(r[i - 1] == a[i - 1]);
            } else if i == a.len() {
                assert(r[i - 1] == a.last());
            } else {
                assert(r[i] == t[i - a.len() - 1]);
                assert(t[i - a.len() - 1] == parts.last()[i - a.len() - 1]);
            }
        }
        if t.len() == 0 {
            assert(r.last() == '\n');
        } else {
            assert(r.last() == t.last());
        }
    }
}

/// No line of a tidied text ends in white space, and the text ends with a line break where
/// one was asked for.
pub proof fn law_tidy_lines(s: Seq<char>, final_newline: bool)
    ensures
        lines_trimmed(tidy(s, final_newline)),
        final_newline ==> has_suffix(tidy(s, final_newline), seq!['\n']),
{
    let parts = split(s, '\n');
    lemma_split_free(s, '\n');
    lemma_join_trimmed(parts);
    let o = join(trim_end_each(parts), seq!['\n']);
    if final_newline && !has_suffix(o, seq!['\n']) {
        let r = o + seq!['\n'];
        assert forall|i: int| 0 < i < r.len() && #[trigger] r[i] == '\n' implies (r[i - 1] == '\n'
            || !is_white(r[i - 1])) by {
            if i < o.len() {
                assert(r[i] == o[i]);
                assert(r[i - 1] == o[i - 1]);
            } else {
                assert(r[i - 1] == o.last());
            }
        }
        assert(r.last() == '\n');
        assert(r.subrange(r.len() - 1, r.len() as int) =~= seq!['\n']);
    }
}

pub fn tidy_of(s: &Vec<char>, final_newline: bool) -> (r: Vec<char>)
    ensures
        r@ == tidy(s@, final_newline),
{
    let parts = split_of(s, '\n', false);
    let trimmed = trim_pieces(&parts, false);
    let o = join_of(&trimmed, &one('\n'));
    if final_newline && !ends_with(&o, &one('\n')) {
        cat(&o, &one('\n'))
    } else {
        o
    }
}

impl Formatter {
    /// A formatter for a parsed text, with the given options.
    pub fn new(csttext: &CstText, option: FormattingOptions) -> (r: Self)
        ensures
            r.text@ == csttext.text@,
            r.lines@ == csttext.lines@,
            spans_of(r.comments@) == comment_spans(csttext.cst.tree()),
            r.depth == 0,
            r.output@ == Seq::<char>::empty(),
            r.option == option,
    {
        let comments = get_comments(csttext);
        let text = chars_of(csttext.text.as_str());
        let lines = copy_positions(&csttext.lines);
        Formatter { text, lines, comments, depth: 0, output: String::new(), option }
    }

    /// Lays a tree of `input` out at the given depth, and tidies the result: no white space
    /// at the end of a line, and a line break at the end unless the options say otherwise.
    pub fn format(&self, input: &str, cst: &Cst, depth: usize) -> (r: String)
        requires
            wf(cst.tree(), input@.len()),
            depth + 2 * height(cst.tree()) <= usize::MAX,
        ensures
            r@ == tidy(
                render(self.layout(), input@, cst.tree(), depth as nat),
                wants_final_newline(self.option),
            ),
    {
        let text = chars_of(input);
        let output = self.to_string_cst(&text, cst, depth);
        let fin = match self.option.insert_final_newline {
            Some(b) => b,
            None => true,
        };
        string_of(&tidy_of(&output, fin))
    }
}

/// A copy of a list of positions.
pub fn copy_positions(v: &Vec<usize>) -> (r: Vec<usize>)
    ensures
        r@ == v@,
{
    let mut r: Vec<usize> = Vec::new();
    let mut i: usize = 0;
    while i < v.len()
        invariant
            i <= v.len(),
            r@ == v@.take(i as int),
        decreases v.len() - i,
    {
        r.push(v[i]);
        assert(v@.take(i + 1) =~= v@.take(i as int).push(v@[i as int]));
        i = i + 1;
    }
    assert(v@.take(v.len() as int) =~= v@);
    r
}

} // verus!
