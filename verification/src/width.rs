//! Display widths of lines, through `unicode_width`.

use vstd::prelude::*;
use crate::text::{lemma_split_nonempty, slice_of, split, split_of, views};

verus! {

/// What `UnicodeWidthStr::width` of `unicode_width` returns for a string holding these
/// characters: the number of terminal columns it takes.
pub uninterp spec fn display_width(s: Seq<char>) -> nat;

/// Calls `unicode_width::UnicodeWidthStr::width` on the string made of `s`; the result is
/// the named width of those characters.
#[verifier::external_body]
pub(crate) fn width_of(s: &Vec<char>) -> (w: usize)
    ensures
        w == display_width(s@),
{
    let text: String = s.iter().collect();
    unicode_width::UnicodeWidthStr::width(text.as_str())
}

pub open spec fn strip_cr(l: Seq<char>) -> Seq<char> {
    if l.len() > 0 && l.last() == '\r' {
        l.drop_last()
    } else {
        l
    }
}

/// The lines of `s`, as `str::lines` gives them: split at `\n`, a `\r` before a `\n` dropped,
/// and no empty line after a final `\n`.
pub open spec fn lines_of(s: Seq<char>) -> Seq<Seq<char>> {
    let p = split(s, '\n');
    let head = p.take(p.len() - 1).map_values(|l: Seq<char>| strip_cr(l));
    if p.last().len() == 0 {
        head
    } else {
        head.push(p.last())
    }
}

/// The largest display width among the lines, or 0 when there is none.
pub open spec fn max_width(ls: Seq<Seq<char>>) -> nat
    decreases ls.len(),
{
    if ls.len() == 0 {
        0
    } else {
        let m = max_width(ls.drop_last());
        let w = display_width(ls.last());
        if m >= w {
            m
        } else {
            w
        }
    }
}

pub open spec fn max_line_width(s: Seq<char>) -> nat {
    max_width(lines_of(s))
}

pub fn strip_cr_of(l: &Vec<char>) -> (r: Vec<char>)
    ensures
        r@ == strip_cr(l@),
{
    if l.len() > 0 && l[l.len() - 1] == '\r' {
        slice_of(l, 0, l.len() - 1)
    } else {
        let r = slice_of(l, 0, l.len());
        assert(l@.subrange(0, l.len() as int) =~= l@);
        r
    }
}

/// The widest line of `text`.
pub fn max_line_width_of(text: &Vec<char>) -> (w: usize)
    ensures
        w == max_line_width(text@),
{
    let parts = split_of(text, '\n', false);
    proof {
        lemma_split_nonempty(text@, '\n');
    }
    let n = parts.len();
    let ghost p = views(parts@);
    let ghost ls = lines_of(text@);
    assert(ls.len() >= n - 1);
    let mut w: usize = 0;
    let mut i: usize = 0;
    while i < n - 1
        invariant
            n == parts.len() >= 1,
            p == views(parts@),
            p == split(text@, '\n'),
            ls == lines_of(text@),
            i <= n - 1,
            w == max_width(ls.take(i as int)),
        decreases n - 1 - i,
    {
        let l = strip_cr_of(&parts[i]);
        assert(ls[i as int] == strip_cr(p[i as int]));
        assert(ls.take(i + 1).drop_last() =~= ls.take(i as int));
        let lw = width_of(&l);
        if lw > w {
            w = lw;
        }
        i = i + 1;
    }
    if parts[n - 1].len() > 0 {
        assert(ls.take(n - 1).push(p.last()) =~= ls);
        assert(ls.drop_last() =~= ls.take(n - 1));
        let lw = width_of(&parts[n - 1]);
        if lw > w {
            w = lw;
        }
    } else {
        assert(ls.take(n - 1) =~= ls);
    }
    w
}

} // verus!
