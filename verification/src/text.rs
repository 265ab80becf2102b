//! Character sequences: white space, trimming, prefixes, splitting and joining.

use vstd::prelude::*;

verus! {

/// The White_Space property of Unicode, which `char::is_whitespace` tests.
pub open spec fn is_white(c: char) -> bool {
    ||| c == '\t'
    ||| c == '\n'
    ||| c == '\u{0B}'
    ||| c == '\u{0C}'
    ||| c == '\r'
    ||| c == ' '
    ||| c == '\u{85}'
    ||| c == '\u{A0}'
    ||| c == '\u{1680}'
    ||| ('\u{2000}' <= c && c <= '\u{200A}')
    ||| c == '\u{2028}'
    ||| c == '\u{2029}'
    ||| c == '\u{202F}'
    ||| c == '\u{205F}'
    ||| c == '\u{3000}'
}

pub fn char_is_white(c: char) -> (r: bool)
    ensures
        r == is_white(c),
{
    c == '\t' || c == '\n' || c == '\u{0B}' || c == '\u{0C}' || c == '\r' || c == ' ' || c
        == '\u{85}' || c == '\u{A0}' || c == '\u{1680}' || ('\u{2000}' <= c && c <= '\u{200A}')
        || c == '\u{2028}' || c == '\u{2029}' || c == '\u{202F}' || c == '\u{205F}' || c
        == '\u{3000}'
}

/// Number of white characters at the front.
pub open spec fn lead_white(s: Seq<char>) -> nat
    decreases s.len(),
{
    if s.len() > 0 && is_white(s[0]) {
        1 + lead_white(s.drop_first())
    } else {
        0
    }
}

/// Number of white characters at the back.
pub open spec fn trail_white(s: Seq<char>) -> nat
    decreases s.len(),
{
    if s.len() > 0 && is_white(s.last()) {
        1 + trail_white(s.drop_last())
    } else {
        0
    }
}

pub open spec fn trim_start(s: Seq<char>) -> Seq<char> {
    s.skip(lead_white(s) as int)
}

pub open spec fn trim_end(s: Seq<char>) -> Seq<char> {
    s.take(s.len() - trail_white(s))
}

pub open spec fn trim(s: Seq<char>) -> Seq<char> {
    trim_start(trim_end(s))
}

pub proof fn lemma_lead_white_bound(s: Seq<char>)
    ensures
        lead_white(s) <= s.len(),
    decreases s.len(),
{
    if s.len() > 0 && is_white(s[0]) {
        lemma_lead_white_bound(s.drop_first());
    }
}

pub proof fn lemma_trail_white_bound(s: Seq<char>)
    ensures
        trail_white(s) <= s.len(),
    decreases s.len(),
{
    if s.len() > 0 && is_white(s.last()) {
        lemma_trail_white_bound(s.drop_last());
    }
}

/// `lead_white` is the first index that does not hold a white character.
pub proof fn lemma_lead_white_at(s: Seq<char>, i: int)
    requires
        0 <= i <= s.len(),
        forall|j: int| 0 <= j < i ==> is_white(#[trigger] s[j]),
        i < s.len() ==> !is_white(s[i]),
    ensures
        lead_white(s) == i,
    decreases i,
{
    if i > 0 {
        let t = s.drop_first();
        assert forall|j: int| 0 <= j < i - 1 implies is_white(#[trigger] t[j]) by {
            assert(t[j] == s[j + 1]);
        }
        if i - 1 < t.len() {
            assert(t[i - 1] == s[i]);
        }
        lemma_lead_white_at(t, i - 1);
    }
}

/// `trail_white` is the length of the longest white suffix.
pub proof fn lemma_trail_white_at(s: Seq<char>, k: int)
    requires
        0 <= k <= s.len(),
        forall|j: int| s.len() - k <= j < s.len() ==> is_white(#[trigger] s[j]),
        k < s.len() ==> !is_white(s[s.len() - k - 1]),
    ensures
        trail_white(s) == k,
    decreases k,
{
    if k > 0 {
        let t = s.drop_last();
        assert forall|j: int| t.len() - (k - 1) <= j < t.len() implies is_white(#[trigger] t[j]) by {
            assert(t[j] == s[j]);
        }
        if k - 1 < t.len() {
            assert(t[t.len() - (k - 1) - 1] == s[s.len() - k - 1]);
        }
        lemma_trail_white_at(t, k - 1);
    }
}

/// Copies `v[from..to]`.
pub fn slice_of(v: &Vec<char>, from: usize, to: usize) -> (r: Vec<char>)
    requires
        from <= to <= v.len(),
    ensures
        r@ == v@.subrange(from as int, to as int),
{
    let mut r: Vec<char> = Vec::new();
    let mut i: usize = from;
    while i < to
        invariant
            from <= i <= to <= v.len(),
            r@ == v@.subrange(from as int, i as int),
        decreases to - i,
    {
        r.push(v[i]);
        i = i + 1;
    }
    r
}

/// Appends all of `src` to `dst`.
pub fn push_all(dst: &mut Vec<char>, src: &Vec<char>)
    ensures
        final(dst)@ == old(dst)@ + src@,
{
    let mut i: usize = 0;
    let ghost start = dst@;
    while i < src.len()
        invariant
            i <= src.len(),
            dst@ == start + src@.subrange(0, i as int),
        decreases src.len() - i,
    {
        dst.push(src[i]);
        i = i + 1;
    }
    assert(src@.subrange(0, src.len() as int) =~= src@);
}

/// `a` followed by `b`.
pub fn cat(a: &Vec<char>, b: &Vec<char>) -> (r: Vec<char>)
    ensures
        r@ == a@ + b@,
{
    let mut r = slice_of(a, 0, a.len());
    assert(a@.subrange(0, a.len() as int) =~= a@);
    push_all(&mut r, b);
    r
}

/// `a` followed by `b` and `c`.
pub fn cat3(a: &Vec<char>, b: &Vec<char>, c: &Vec<char>) -> (r: Vec<char>)
    ensures
        r@ == a@ + b@ + c@,
{
    let mut r = cat(a, b);
    push_all(&mut r, c);
    r
}

/// The characters of a string slice.
pub fn chars_of(s: &str) -> (r: Vec<char>)
    ensures
        r@ == s@,
{
    let n = s.unicode_len();
    let mut r: Vec<char> = Vec::new();
    let mut i: usize = 0;
    while i < n
        invariant
            n == s@.len(),
            i <= n,
            r@ == s@.subrange(0, i as int),
        decreases n - i,
    {
        r.push(s.get_char(i));
        i = i + 1;
    }
    assert(s@.subrange(0, n as int) =~= s@);
    r
}

pub fn trim_start_of(v: &Vec<char>) -> (r: Vec<char>)
    ensures
        r@ == trim_start(v@),
{
    let mut i: usize = 0;
    while i < v.len() && char_is_white(v[i])
        invariant
            i <= v.len(),
            forall|j: int| 0 <= j < i ==> is_white(#[trigger] v@[j]),
        decreases v.len() - i,
    {
        i = i + 1;
    }
    proof {
        lemma_lead_white_at(v@, i as int);
    }
    slice_of(v, i, v.len())
}

pub fn trim_end_of(v: &Vec<char>) -> (r: Vec<char>)
    ensures
        r@ == trim_end(v@),
{
    let mut k: usize = 0;
    while k < v.len() && char_is_white(v[v.len() - 1 - k])
        invariant
            k <= v.len(),
            forall|j: int| v.len() - k <= j < v.len() ==> is_white(#[trigger] v@[j]),
        decreases v.len() - k,
    {
        k = k + 1;
    }
    proof {
        lemma_trail_white_at(v@, k as int);
    }
    slice_of(v, 0, v.len() - k)
}

pub fn trim_of(v: &Vec<char>) -> (r: Vec<char>)
    ensures
        r@ == trim(v@),
{
    let e = trim_end_of(v);
    trim_start_of(&e)
}

pub open spec fn has_prefix(s: Seq<char>, p: Seq<char>) -> bool {
    p.len() <= s.len() && s.subrange(0, p.len() as int) == p
}

pub open spec fn has_suffix(s: Seq<char>, p: Seq<char>) -> bool {
    p.len() <= s.len() && s.subrange(s.len() - p.len(), s.len() as int) == p
}

pub fn starts_with(v: &Vec<char>, p: &Vec<char>) -> (r: bool)
    ensures
        r == has_prefix(v@, p@),
{
    if p.len() > v.len() {
        return false;
    }
    let mut i: usize = 0;
    while i < p.len()
        invariant
            p.len() <= v.len(),
            i <= p.len(),
            v@.subrange(0, i as int) == p@.subrange(0, i as int),
        decreases p.len() - i,
    {
        if v[i] != p[i] {
            assert(v@.subrange(0, p.len() as int)[i as int] != p@[i as int]);
            return false;
        }
        assert(v@.subrange(0, i + 1) =~= v@.subrange(0, i as int).push(v@[i as int]));
        assert(p@.subrange(0, i + 1) =~= p@.subrange(0, i as int).push(p@[i as int]));
        i = i + 1;
    }
    assert(p@.subrange(0, p.len() as int) =~= p@);
    true
}

pub fn ends_with(v: &Vec<char>, p: &Vec<char>) -> (r: bool)
    ensures
        r == has_suffix(v@, p@),
{
    if p.len() > v.len() {
        return false;
    }
    let off = v.len() - p.len();
    let mut i: usize = 0;
    while i < p.len()
        invariant
            p.len() <= v.len(),
            off == v.len() - p.len(),
            i <= p.len(),
            forall|j: int| 0 <= j < i ==> v@[off + j] == p@[j],
        decreases p.len() - i,
    {
        if v[off + i] != p[i] {
            assert(v@.subrange(off as int, v.len() as int)[i as int] != p@[i as int]);
            return false;
        }
        i = i + 1;
    }
    assert(v@.subrange(off as int, v.len() as int) =~= p@);
    true
}

pub fn contains_char(v: &Vec<char>, c: char) -> (r: bool)
    ensures
        r == v@.contains(c),
{
    let mut i: usize = 0;
    while i < v.len()
        invariant
            i <= v.len(),
            forall|j: int| 0 <= j < i ==> v@[j] != c,
        decreases v.len() - i,
    {
        if v[i] == c {
            return true;
        }
        i = i + 1;
    }
    false
}

pub fn same_chars(a: &Vec<char>, b: &Vec<char>) -> (r: bool)
    ensures
        r == (a@ == b@),
{
    if a.len() != b.len() {
        return false;
    }
    let mut i: usize = 0;
    while i < a.len()
        invariant
            a.len() == b.len(),
            i <= a.len(),
            forall|j: int| 0 <= j < i ==> a@[j] == b@[j],
        decreases a.len() - i,
    {
        if a[i] != b[i] {
            return false;
        }
        i = i + 1;
    }
    assert(a@ =~= b@);
    true
}

/// The pieces of `s` between occurrences of `d`, as `str::split` gives them.
pub open spec fn split(s: Seq<char>, d: char) -> Seq<Seq<char>>
    decreases s.len(),
{
    if s.len() == 0 {
        seq![Seq::empty()]
    } else {
        let p = split(s.drop_last(), d);
        if s.last() == d {
            p.push(Seq::empty())
        } else {
            p.update(p.len() - 1, p.last().push(s.last()))
        }
    }
}

pub proof fn lemma_split_nonempty(s: Seq<char>, d: char)
    ensures
        split(s, d).len() >= 1,
    decreases s.len(),
{
    if s.len() > 0 {
        lemma_split_nonempty(s.drop_last(), d);
    }
}

/// The pieces of `s` between runs of white characters, as `str::split(char::is_whitespace)`
/// gives them.
pub open spec fn split_white(s: Seq<char>) -> Seq<Seq<char>>
    decreases s.len(),
{
    if s.len() == 0 {
        seq![Seq::empty()]
    } else {
        let p = split_white(s.drop_last());
        if is_white(s.last()) {
            p.push(Seq::empty())
        } else {
            p.update(p.len() - 1, p.last().push(s.last()))
        }
    }
}

pub proof fn lemma_split_white_nonempty(s: Seq<char>)
    ensures
        split_white(s).len() >= 1,
    decreases s.len(),
{
    if s.len() > 0 {
        lemma_split_white_nonempty(s.drop_last());
    }
}

/// The pieces put back together with `sep` between them.
pub open spec fn join(parts: Seq<Seq<char>>, sep: Seq<char>) -> Seq<char>
    decreases parts.len(),
{
    if parts.len() == 0 {
        Seq::empty()
    } else if parts.len() == 1 {
        parts[0]
    } else {
        join(parts.drop_last(), sep) + sep + parts.last()
    }
}

pub open spec fn views(v: Seq<Vec<char>>) -> Seq<Seq<char>> {
    v.map_values(|x: Vec<char>| x@)
}

/// Splits on a character (when `white` is false) or on white space (when it is true).
pub fn split_of(v: &Vec<char>, d: char, white: bool) -> (r: Vec<Vec<char>>)
    ensures
        white ==> views(r@) == split_white(v@),
        !white ==> views(r@) == split(v@, d),
{
    let mut r: Vec<Vec<char>> = Vec::new();
    let mut cur: Vec<char> = Vec::new();
    let mut i: usize = 0;
    proof {
        assert(v@.subrange(0, 0) =~= Seq::<char>::empty());
    }
    while i < v.len()
        invariant
            i <= v.len(),
            white ==> views(r@).push(cur@) == split_white(v@.subrange(0, i as int)),
            !white ==> views(r@).push(cur@) == split(v@.subrange(0, i as int), d),
        decreases v.len() - i,
    {
        let c = v[i];
        let brk = if white {
            char_is_white(c)
        } else {
            c == d
        };
        let ghost pre = v@.subrange(0, i as int);
        let ghost next = v@.subrange(0, i + 1);
        let ghost r0 = views(r@);
        let ghost c0 = cur@;
        assert(next.drop_last() =~= pre);
        assert(next.last() == c);
        if brk {
            let done = cur;
            r.push(done);
            cur = Vec::new();
            assert(views(r@) =~= r0.push(c0));
            assert(views(r@).push(cur@) =~= r0.push(c0).push(Seq::empty()));
        } else {
            cur.push(c);
            assert(views(r@).push(cur@) =~= r0.push(c0).update(r0.len() as int, c0.push(c)));
        }
        i = i + 1;
    }
    assert(v@.subrange(0, v.len() as int) =~= v@);
    r.push(cur);
    r
}

pub fn join_of(parts: &Vec<Vec<char>>, sep: &Vec<char>) -> (r: Vec<char>)
    ensures
        r@ == join(views(parts@), sep@),
{
    let mut r: Vec<char> = Vec::new();
    let mut i: usize = 0;
    while i < parts.len()
        invariant
            i <= parts.len(),
            r@ == join(views(parts@).take(i as int), sep@),
        decreases parts.len() - i,
    {
        let ghost prev = views(parts@).take(i as int);
        assert(views(parts@).take(i + 1).drop_last() =~= prev);
        if i > 0 {
            push_all(&mut r, sep);
        }
        push_all(&mut r, &parts[i]);
        i = i + 1;
    }
    assert(views(parts@).take(parts.len() as int) =~= views(parts@));
    r
}

pub open spec fn trim_each(ls: Seq<Seq<char>>) -> Seq<Seq<char>> {
    ls.map_values(|l: Seq<char>| trim(l))
}

pub open spec fn trim_end_each(ls: Seq<Seq<char>>) -> Seq<Seq<char>> {
    ls.map_values(|l: Seq<char>| trim_end(l))
}

/// Maps `trim` (when `both` is true) or `trim_end` over the pieces.
pub fn trim_pieces(parts: &Vec<Vec<char>>, both: bool) -> (r: Vec<Vec<char>>)
    ensures
        both ==> views(r@) == trim_each(views(parts@)),
        !both ==> views(r@) == trim_end_each(views(parts@)),
{
    let mut r: Vec<Vec<char>> = Vec::new();
    let mut i: usize = 0;
    while i < parts.len()
        invariant
            i <= parts.len(),
            both ==> views(r@) == trim_each(views(parts@)).take(i as int),
            !both ==> views(r@) == trim_end_each(views(parts@)).take(i as int),
        decreases parts.len() - i,
    {
        let ghost r0 = views(r@);
        let t = if both {
            trim_of(&parts[i])
        } else {
            trim_end_of(&parts[i])
        };
        r.push(t);
        assert(views(r@) =~= r0.push(t@));
        assert(trim_each(views(parts@)).take(i + 1) =~= trim_each(views(parts@)).take(
            i as int,
        ).push(trim(parts@[i as int]@)));
        assert(trim_end_each(views(parts@)).take(i + 1) =~= trim_end_each(views(parts@)).take(
            i as int,
        ).push(trim_end(parts@[i as int]@)));
        i = i + 1;
    }
    assert(trim_each(views(parts@)).take(parts.len() as int) =~= trim_each(views(parts@)));
    assert(trim_end_each(views(parts@)).take(parts.len() as int) =~= trim_end_each(
        views(parts@),
    ));
    r
}

/// The pieces that are not empty (when `blank` is false) or not blank after trimming.
pub open spec fn keep(ls: Seq<Seq<char>>, blank: bool) -> Seq<Seq<char>>
    decreases ls.len(),
{
    if ls.len() == 0 {
        Seq::empty()
    } else {
        let p = keep(ls.drop_last(), blank);
        let l = ls.last();
        if (blank && trim(l).len() > 0) || (!blank && l.len() > 0) {
            p.push(l)
        } else {
            p
        }
    }
}

pub fn keep_pieces(parts: &Vec<Vec<char>>, blank: bool) -> (r: Vec<Vec<char>>)
    ensures
        views(r@) == keep(views(parts@), blank),
{
    let mut r: Vec<Vec<char>> = Vec::new();
    let mut i: usize = 0;
    while i < parts.len()
        invariant
            i <= parts.len(),
            views(r@) == keep(views(parts@).take(i as int), blank),
        decreases parts.len() - i,
    {
        let ghost r0 = views(r@);
        assert(views(parts@).take(i + 1).drop_last() =~= views(parts@).take(i as int));
        assert(views(parts@).take(i + 1).last() == parts@[i as int]@);
        let l = &parts[i];
        let ok = if blank {
            trim_of(l).len() > 0
        } else {
            l.len() > 0
        };
        if ok {
            let c = slice_of(l, 0, l.len());
            assert(l@.subrange(0, l.len() as int) =~= l@);
            r.push(c);
            assert(views(r@) =~= r0.push(l@));
        }
        i = i + 1;
    }
    assert(views(parts@).take(parts.len() as int) =~= views(parts@));
    r
}

/// Every occurrence of `pat`, scanned from the left, replaced by `rep`.
pub open spec fn replace_all(s: Seq<char>, pat: Seq<char>, rep: Seq<char>) -> Seq<char>
    decreases s.len(),
{
    if s.len() == 0 {
        Seq::empty()
    } else if pat.len() > 0 && has_prefix(s, pat) {
        rep + replace_all(s.skip(pat.len() as int), pat, rep)
    } else {
        seq![s[0]] + replace_all(s.drop_first(), pat, rep)
    }
}

pub fn prefix_at(v: &Vec<char>, i: usize, p: &Vec<char>) -> (r: bool)
    requires
        i <= v.len(),
    ensures
        r == has_prefix(v@.skip(i as int), p@),
{
    if p.len() > v.len() - i {
        return false;
    }
    let mut k: usize = 0;
    while k < p.len()
        invariant
            i <= v.len(),
            p.len() <= v.len() - i,
            k <= p.len(),
            forall|j: int| 0 <= j < k ==> v@[i + j] == p@[j],
        decreases p.len() - k,
    {
        if v[i + k] != p[k] {
            assert(v@.skip(i as int).subrange(0, p.len() as int)[k as int] != p@[k as int]);
            return false;
        }
        k = k + 1;
    }
    assert(v@.skip(i as int).subrange(0, p.len() as int) =~= p@);
    true
}

pub fn replace_all_of(v: &Vec<char>, pat: &Vec<char>, rep: &Vec<char>) -> (r: Vec<char>)
    requires
        pat.len() > 0,
    ensures
        r@ == replace_all(v@, pat@, rep@),
{
    let mut r: Vec<char> = Vec::new();
    let mut i: usize = 0;
    assert(v@.skip(0) =~= v@);
    while i < v.len()
        invariant
            pat.len() > 0,
            i <= v.len(),
            replace_all(v@, pat@, rep@) == r@ + replace_all(v@.skip(i as int), pat@, rep@),
        decreases v.len() - i,
    {
        let ghost rest = v@.skip(i as int);
        if prefix_at(v, i, pat) {
            assert(rest.skip(pat.len() as int) =~= v@.skip(i + pat.len()));
            push_all(&mut r, rep);
            i = i + pat.len();
        } else {
            assert(rest.drop_first() =~= v@.skip(i + 1));
            assert(rest[0] == v@[i as int]);
            r.push(v[i]);
            i = i + 1;
        }
        assert(replace_all(v@, pat@, rep@) =~= r@ + replace_all(v@.skip(i as int), pat@, rep@));
    }
    assert(v@.skip(v.len() as int) =~= Seq::<char>::empty());
    r
}

/// What `trim_end` leaves is empty or ends in a character that is not white, and is a prefix.
pub proof fn lemma_trim_end_last(s: Seq<char>)
    ensures
        trim_end(s).len() > 0 ==> !is_white(trim_end(s).last()),
        trim_end(s).len() <= s.len(),
        forall|j: int| 0 <= j < trim_end(s).len() ==> trim_end(s)[j] == s[j],
    decreases s.len(),
{
    lemma_trail_white_bound(s);
    if s.len() > 0 && is_white(s.last()) {
        let t = s.drop_last();
        lemma_trim_end_last(t);
        lemma_trail_white_bound(t);
        assert(trim_end(s) =~= trim_end(t));
    } else {
        assert(trim_end(s) =~= s);
    }
}

/// No piece of a split holds the character it was split on.
pub proof fn lemma_split_free(s: Seq<char>, d: char)
    ensures
        forall|k: int, j: int|
            0 <= k < split(s, d).len() && 0 <= j < split(s, d)[k].len() ==> split(s, d)[k][j]
                != d,
    decreases s.len(),
{
    if s.len() > 0 {
        lemma_split_free(s.drop_last(), d);
        lemma_split_nonempty(s.drop_last(), d);
    }
}

} // verus!
