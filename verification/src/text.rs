//! A model of the standard text operations that the library relies on
//! (`char::is_whitespace`, `str::trim`, `str::lines`, ...), stated over
//! `Seq<char>`, and executable versions over `Vec<char>` proved against it.
use vstd::prelude::*;

verus! {

/// Unicode `White_Space`, the set `char::is_whitespace` tests.
pub open spec fn is_white(c: char) -> bool {
    ||| ('\t' <= c && c <= '\r')
    ||| c == ' '
    ||| c == '\u{85}'
    ||| c == '\u{a0}'
    ||| c == '\u{1680}'
    ||| ('\u{2000}' <= c && c <= '\u{200a}')
    ||| c == '\u{2028}'
    ||| c == '\u{2029}'
    ||| c == '\u{202f}'
    ||| c == '\u{205f}'
    ||| c == '\u{3000}'
}

pub fn is_white_exec(c: char) -> (b: bool)
    ensures
        b == is_white(c),
{
    ('\t' <= c && c <= '\r') || c == ' ' || c == '\u{85}' || c == '\u{a0}' || c == '\u{1680}'
        || ('\u{2000}' <= c && c <= '\u{200a}') || c == '\u{2028}' || c == '\u{2029}' || c
        == '\u{202f}' || c == '\u{205f}' || c == '\u{3000}'
}

/// `s` without its leading whitespace.
pub open spec fn trim_start(s: Seq<char>) -> Seq<char>
    decreases s.len(),
{
    if s.len() > 0 && is_white(s[0]) {
        trim_start(s.drop_first())
    } else {
        s
    }
}

/// `s` without its trailing whitespace.
pub open spec fn trim_end(s: Seq<char>) -> Seq<char>
    decreases s.len(),
{
    if s.len() > 0 && is_white(s.last()) {
        trim_end(s.drop_last())
    } else {
        s
    }
}

/// `str::trim`: `s` without leading and trailing whitespace.
pub open spec fn trim(s: Seq<char>) -> Seq<char> {
    trim_end(trim_start(s))
}

pub fn trim_start_exec(s: &Vec<char>) -> (r: Vec<char>)
    ensures
        r@ == trim_start(s@),
{
    let mut i: usize = 0;
    assert(s@.skip(0) =~= s@);
    while i < s.len() && is_white_exec(s[i])
        invariant
            i <= s.len(),
            trim_start(s@) == trim_start(s@.skip(i as int)),
        decreases s.len() - i,
    {
        assert(s@.skip(i as int).drop_first() =~= s@.skip(i + 1));
        i = i + 1;
    }
    let mut r: Vec<char> = Vec::new();
    let mut j: usize = i;
    while j < s.len()
        invariant
            i <= j <= s.len(),
            r@ =~= s@.subrange(i as int, j as int),
        decreases s.len() - j,
    {
        r.push(s[j]);
        j = j + 1;
    }
    assert(r@ =~= s@.skip(i as int));
    r
}

pub fn trim_exec(s: &Vec<char>) -> (r: Vec<char>)
    ensures
        r@ == trim(s@),
{
    let t = trim_start_exec(s);
    let mut k: usize = t.len();
    assert(t@.take(k as int) =~= t@);
    while k > 0 && is_white_exec(t[k - 1])
        invariant
            k <= t.len(),
            trim_end(t@) == trim_end(t@.take(k as int)),
        decreases k,
    {
        assert(t@.take(k as int).drop_last() =~= t@.take(k - 1));
        k = k - 1;
    }
    let mut r: Vec<char> = Vec::new();
    let mut j: usize = 0;
    while j < k
        invariant
            j <= k <= t.len(),
            r@ =~= t@.take(j as int),
        decreases k - j,
    {
        r.push(t[j]);
        j = j + 1;
    }
    r
}

} // verus!

verus! {

/// The characters of `s`, in order.
pub fn chars_of(s: &str) -> (v: Vec<char>)
    ensures
        v@ == s@,
{
    broadcast use vstd::string::group_string_axioms;

    let mut v: Vec<char> = Vec::new();
    for c in it: s.chars()
        invariant
            v@ == it.seq().take(it.index()),
            it.seq() == s@,
    {
        v.push(c);
        assert(v@ =~= it.seq().take(it.index() + 1));
    }
    assert(v@ =~= s@);
    v
}

} // verus!

verus! {

/// Index of the first `c` in `s`, or `s.len()` when `c` does not occur.
pub open spec fn first_index_of(s: Seq<char>, c: char) -> int
    decreases s.len(),
{
    if s.len() == 0 {
        0
    } else if s[0] == c {
        0
    } else {
        1 + first_index_of(s.drop_first(), c)
    }
}

/// `c` does not occur in `s`.
pub open spec fn lacks(s: Seq<char>, c: char) -> bool {
    forall|j: int| 0 <= j < s.len() ==> s[j] != c
}

pub proof fn lemma_first_index_of(s: Seq<char>, c: char)
    ensures
        0 <= first_index_of(s, c) <= s.len(),
        lacks(s.take(first_index_of(s, c)), c),
        first_index_of(s, c) < s.len() ==> s[first_index_of(s, c)] == c,
    decreases s.len(),
{
    if s.len() > 0 && s[0] != c {
        lemma_first_index_of(s.drop_first(), c);
        let k = first_index_of(s.drop_first(), c);
        assert forall|j: int| 0 <= j < k + 1 implies #[trigger] s.take(k + 1)[j] != c by {
            if j > 0 {
                assert(s.take(k + 1)[j] == s.drop_first().take(k)[j - 1]);
            }
        }
    }
}

/// The first index of `c` is `m` when `c` occurs at `m` and not before.
pub proof fn lemma_first_index_is(s: Seq<char>, c: char, m: int)
    requires
        0 <= m <= s.len(),
        forall|j: int| 0 <= j < m ==> s[j] != c,
        m < s.len() ==> s[m] == c,
    ensures
        first_index_of(s, c) == m,
    decreases m,
{
    if m > 0 {
        lemma_first_index_is(s.drop_first(), c, m - 1);
    }
}

/// A line without the `'\r'` that ends it, if any.
pub open spec fn strip_cr(l: Seq<char>) -> Seq<char> {
    if l.len() > 0 && l.last() == '\r' {
        l.drop_last()
    } else {
        l
    }
}

/// `str::lines`: the lines of `s`, split at `'\n'`, each without a `'\r'`
/// that stands just before its `'\n'`; a final `'\n'` does not open a line.
pub open spec fn lines(s: Seq<char>) -> Seq<Seq<char>>
    decreases s.len(),
{
    if s.len() == 0 {
        Seq::empty()
    } else {
        let k = first_index_of(s, '\n');
        if 0 <= k < s.len() {
            seq![strip_cr(s.take(k))] + lines(s.skip(k + 1))
        } else {
            seq![s]
        }
    }
}

/// `lines` on a text whose first line ends at `m`.
pub proof fn lemma_lines_step(s: Seq<char>, m: int)
    requires
        0 <= m < s.len(),
        lacks(s.take(m), '\n'),
        s[m] == '\n',
    ensures
        lines(s) == seq![strip_cr(s.take(m))] + lines(s.skip(m + 1)),
{
    assert forall|j: int| 0 <= j < m implies s[j] != '\n' by {
        assert(s.take(m)[j] == s[j]);
    }
    lemma_first_index_is(s, '\n', m);
}

/// `lines` on a nonempty text without `'\n'`.
pub proof fn lemma_lines_last(s: Seq<char>)
    requires
        s.len() > 0,
        lacks(s, '\n'),
    ensures
        lines(s) == seq![s],
{
    lemma_first_index_is(s, '\n', s.len() as int);
}

/// The views of a vector of lines.
pub open spec fn views(v: Seq<Vec<char>>) -> Seq<Seq<char>> {
    v.map_values(|l: Vec<char>| l@)
}

/// A copy of `s[from..to]`.
pub fn slice_of(s: &Vec<char>, from: usize, to: usize) -> (r: Vec<char>)
    requires
        from <= to <= s.len(),
    ensures
        r@ == s@.subrange(from as int, to as int),
{
    let mut r: Vec<char> = Vec::new();
    let mut j: usize = from;
    while j < to
        invariant
            from <= j <= to <= s.len(),
            r@ =~= s@.subrange(from as int, j as int),
        decreases to - j,
    {
        r.push(s[j]);
        j = j + 1;
    }
    r
}

/// `str::lines`, on characters.
pub fn lines_exec(s: &Vec<char>) -> (r: Vec<Vec<char>>)
    ensures
        views(r@) == lines(s@),
{
    let n = s.len();
    let mut r: Vec<Vec<char>> = Vec::new();
    let mut start: usize = 0;
    let mut i: usize = 0;
    assert(s@.skip(0) =~= s@);
    while i < n
        invariant
            n == s.len(),
            start <= i <= n,
            views(r@) + lines(s@.skip(start as int)) == lines(s@),
            lacks(s@.subrange(start as int, i as int), '\n'),
        decreases n - i,
    {
        if s[i] == '\n' {
            let ghost t = s@.skip(start as int);
            let m = i - start;
            assert(t.take(m as int) =~= s@.subrange(start as int, i as int));
            assert(t.skip(m + 1) =~= s@.skip(i + 1));
            proof {
                lemma_lines_step(t, m as int);
            }
            let mut line = slice_of(s, start, i);
            if line.len() > 0 && line[line.len() - 1] == '\r' {
                line.pop();
            }
            assert(line@ =~= strip_cr(t.take(m as int)));
            let ghost before = r@;
            r.push(line);
            assert(views(r@) =~= views(before).push(strip_cr(t.take(m as int))));
            start = i + 1;
            assert(s@.subrange(start as int, i + 1) =~= Seq::<char>::empty());
        } else {
            assert(s@.subrange(start as int, i + 1) =~= s@.subrange(start as int, i as int).push(
                s@[i as int],
            ));
        }
        i = i + 1;
    }
    if start < n {
        let ghost t = s@.skip(start as int);
        assert(t =~= s@.subrange(start as int, n as int));
        proof {
            lemma_lines_last(t);
        }
        let line = slice_of(s, start, n);
        let ghost before = r@;
        r.push(line);
        assert(views(r@) =~= views(before).push(t));
    } else {
        assert(s@.skip(start as int) =~= Seq::<char>::empty());
    }
    assert(views(r@) =~= lines(s@));
    r
}

} // verus!

verus! {

/// `[T]::join("\n")` on lines: the lines with a `'\n'` between neighbours.
pub open spec fn join_lines(ls: Seq<Seq<char>>) -> Seq<char>
    decreases ls.len(),
{
    if ls.len() == 0 {
        Seq::empty()
    } else if ls.len() == 1 {
        ls[0]
    } else {
        ls[0] + seq!['\n'] + join_lines(ls.drop_first())
    }
}

/// The text that the library writes back from lines: their join and a final `'\n'`.
pub open spec fn unlines(ls: Seq<Seq<char>>) -> Seq<char> {
    join_lines(ls) + seq!['\n']
}

/// Every line is free of `'\n'`.
pub open spec fn all_lack_newline(ls: Seq<Seq<char>>) -> bool {
    forall|i: int| 0 <= i < ls.len() ==> lacks(#[trigger] ls[i], '\n')
}

pub proof fn lemma_join_push(ls: Seq<Seq<char>>, x: Seq<char>)
    ensures
        join_lines(ls.push(x)) == if ls.len() == 0 {
            x
        } else {
            join_lines(ls) + seq!['\n'] + x
        },
    decreases ls.len(),
{
    if ls.len() == 0 {
        assert(ls.push(x) =~= seq![x]);
        assert(join_lines(seq![x]) == x);
    } else if ls.len() == 1 {
        assert(ls.push(x).drop_first() =~= seq![x]);
        assert(ls.push(x)[0] == ls[0]);
        assert(join_lines(seq![x]) == x);
        assert(join_lines(ls) == ls[0]);
        assert(join_lines(ls.push(x)) =~= join_lines(ls) + seq!['\n'] + x);
    } else {
        assert(ls.push(x).drop_first() =~= ls.drop_first().push(x));
        assert(ls.push(x)[0] == ls[0]);
        lemma_join_push(ls.drop_first(), x);
        assert(join_lines(ls.push(x)) =~= join_lines(ls) + seq!['\n'] + x);
    }
}

/// Reading back the lines of written-back lines gives the lines, each without
/// a final `'\r'`; no lines write back as one empty line.
pub proof fn lemma_lines_of_unlines(ls: Seq<Seq<char>>)
    requires
        all_lack_newline(ls),
    ensures
        lines(unlines(ls)) == if ls.len() == 0 {
            seq![Seq::<char>::empty()]
        } else {
            ls.map_values(|l: Seq<char>| strip_cr(l))
        },
    decreases ls.len(),
{
    let s = unlines(ls);
    if ls.len() == 0 {
        assert(s =~= seq!['\n']);
        lemma_lines_step(s, 0);
        assert(s.skip(1) =~= Seq::<char>::empty());
        assert(s.take(0) =~= Seq::<char>::empty());
    } else {
        let a = ls[0];
        assert(lacks(a, '\n'));
        let m = a.len() as int;
        assert(s.take(m) =~= a);
        if ls.len() == 1 {
            assert(s =~= a + seq!['\n']);
            lemma_lines_step(s, m);
            assert(s.skip(m + 1) =~= Seq::<char>::empty());
        } else {
            let rest = ls.drop_first();
            assert(s =~= a + seq!['\n'] + unlines(rest));
            lemma_lines_step(s, m);
            assert(s.skip(m + 1) =~= unlines(rest));
            assert(all_lack_newline(rest)) by {
                assert forall|i: int| 0 <= i < rest.len() implies lacks(#[trigger] rest[i], '\n') by {
                    assert(rest[i] == ls[i + 1]);
                }
            }
            lemma_lines_of_unlines(rest);
        }
        assert(lines(s) =~= ls.map_values(|l: Seq<char>| strip_cr(l)));
    }
}

/// Join lines and end the text with `'\n'`.
pub fn unlines_exec(ls: &Vec<Vec<char>>) -> (r: Vec<char>)
    ensures
        r@ == unlines(views(ls@)),
{
    let mut r: Vec<char> = Vec::new();
    let mut k: usize = 0;
    while k < ls.len()
        invariant
            k <= ls.len(),
            r@ == join_lines(views(ls@).take(k as int)),
        decreases ls.len() - k,
    {
        proof {
            lemma_join_push(views(ls@).take(k as int), ls@[k as int]@);
            assert(views(ls@).take(k + 1) =~= views(ls@).take(k as int).push(ls@[k as int]@));
        }
        if k > 0 {
            r.push('\n');
        }
        let line = &ls[k];
        let mut j: usize = 0;
        let ghost before = r@;
        while j < line.len()
            invariant
                j <= line.len(),
                r@ == before + line@.take(j as int),
            decreases line.len() - j,
        {
            r.push(line[j]);
            j = j + 1;
            assert(r@ =~= before + line@.take(j as int));
        }
        assert(line@.take(j as int) =~= line@);
        assert(r@ =~= join_lines(views(ls@).take(k + 1)));
        k = k + 1;
    }
    assert(views(ls@).take(k as int) =~= views(ls@));
    r.push('\n');
    r
}

/// `p` occurs in `s` at index `i`.
pub open spec fn occurs_at(s: Seq<char>, p: Seq<char>, i: int) -> bool {
    0 <= i && i + p.len() <= s.len() && s.subrange(i, i + p.len()) == p
}

/// `str::contains` with a text pattern.
pub open spec fn contains(s: Seq<char>, p: Seq<char>) -> bool {
    exists|i: int| occurs_at(s, p, i)
}

/// `str::starts_with` with a text pattern.
pub open spec fn starts_with(s: Seq<char>, p: Seq<char>) -> bool {
    occurs_at(s, p, 0)
}

pub fn occurs_at_exec(s: &Vec<char>, p: &Vec<char>, i: usize) -> (b: bool)
    ensures
        b == occurs_at(s@, p@, i as int),
{
    if i > s.len() || p.len() > s.len() - i {
        return false;
    }
    let mut j: usize = 0;
    while j < p.len()
        invariant
            i + p.len() <= s.len(),
            j <= p.len(),
            s@.subrange(i as int, i + j) =~= p@.take(j as int),
        decreases p.len() - j,
    {
        if s[i + j] != p[j] {
            assert(s@.subrange(i as int, i + p.len())[j as int] != p@[j as int]);
            return false;
        }
        j = j + 1;
        assert(s@.subrange(i as int, i + j) =~= p@.take(j as int));
    }
    assert(p@.take(j as int) =~= p@);
    true
}

pub fn starts_with_exec(s: &Vec<char>, p: &str) -> (b: bool)
    ensures
        b == starts_with(s@, p@),
{
    let pv = chars_of(p);
    occurs_at_exec(s, &pv, 0)
}

pub fn contains_exec(s: &Vec<char>, p: &str) -> (b: bool)
    ensures
        b == contains(s@, p@),
{
    let pv = chars_of(p);
    let mut i: usize = 0;
    while i < s.len()
        invariant
            pv@ == p@,
            i <= s.len(),
            forall|k: int| 0 <= k < i ==> !occurs_at(s@, p@, k),
        decreases s.len() - i,
    {
        if occurs_at_exec(s, &pv, i) {
            return true;
        }
        i = i + 1;
    }
    if occurs_at_exec(s, &pv, i) {
        return true;
    }
    assert forall|k: int| !occurs_at(s@, p@, k) by {
        if 0 <= k < i {
        }
    }
    false
}

} // verus!

verus! {

/// Every character of `s` is whitespace.
pub open spec fn all_white(s: Seq<char>) -> bool {
    forall|j: int| 0 <= j < s.len() ==> is_white(#[trigger] s[j])
}

/// `trim_start` drops a whitespace prefix and stops at a non-whitespace character.
pub proof fn lemma_trim_start_skip(s: Seq<char>) -> (k: int)
    ensures
        0 <= k <= s.len(),
        trim_start(s) == s.skip(k),
        all_white(s.take(k)),
        k < s.len() ==> !is_white(s[k]),
    decreases s.len(),
{
    if s.len() > 0 && is_white(s[0]) {
        let k1 = lemma_trim_start_skip(s.drop_first());
        assert(s.drop_first().skip(k1) =~= s.skip(k1 + 1));
        assert forall|j: int| 0 <= j < k1 + 1 implies is_white(#[trigger] s.take(k1 + 1)[j]) by {
            if j > 0 {
                assert(s.take(k1 + 1)[j] == s.drop_first().take(k1)[j - 1]);
            }
        }
        k1 + 1
    } else {
        assert(s.skip(0) =~= s);
        0
    }
}

/// `trim_end` drops a whitespace suffix and stops at a non-whitespace character.
pub proof fn lemma_trim_end_take(s: Seq<char>) -> (k: int)
    ensures
        0 <= k <= s.len(),
        trim_end(s) == s.take(k),
        all_white(s.skip(k)),
        k > 0 ==> !is_white(s[k - 1]),
    decreases s.len(),
{
    if s.len() > 0 && is_white(s.last()) {
        let k1 = lemma_trim_end_take(s.drop_last());
        assert(s.drop_last().take(k1) =~= s.take(k1));
        assert forall|j: int| 0 <= j < s.len() - k1 implies is_white(#[trigger] s.skip(k1)[j]) by {
            if j < s.len() - 1 - k1 {
                assert(s.skip(k1)[j] == s.drop_last().skip(k1)[j]);
            }
        }
        k1
    } else {
        assert(s.take(s.len() as int) =~= s);
        s.len() as int
    }
}

/// `trim` keeps a slice of the text, with non-whitespace at both ends.
pub proof fn lemma_trim_slice(s: Seq<char>) -> (ab: (int, int))
    ensures
        0 <= ab.0 <= ab.1 <= s.len(),
        trim(s) == s.subrange(ab.0, ab.1),
        trim(s).len() > 0 ==> !is_white(trim(s)[0]) && !is_white(trim(s).last()),
        trim(s).len() == 0 ==> all_white(s),
{
    let a = lemma_trim_start_skip(s);
    let u = s.skip(a);
    let b = lemma_trim_end_take(u);
    assert(u.take(b) =~= s.subrange(a, a + b));
    if b == 0 && a < s.len() {
        assert(u.skip(0)[0] == s[a]);
    }
    if b == 0 {
        assert forall|j: int| 0 <= j < s.len() implies is_white(#[trigger] s[j]) by {
            if j < a {
                assert(s.take(a)[j] == s[j]);
            } else {
                assert(u.skip(0)[j - a] == s[j]);
            }
        }
    }
    (a, a + b)
}

/// A text that starts with non-whitespace keeps its first character under `trim_end`.
pub proof fn lemma_trim_end_keeps_first(s: Seq<char>)
    requires
        s.len() > 0,
        !is_white(s[0]),
    ensures
        trim_end(s).len() > 0,
        trim_end(s)[0] == s[0],
{
    let k = lemma_trim_end_take(s);
    if k == 0 {
        assert(s.skip(0)[0] == s[0]);
    }
}

/// Whitespace after a text that is not all whitespace survives `trim_start`.
pub proof fn lemma_trim_start_append(x: Seq<char>, y: Seq<char>)
    ensures
        trim_start(x + y) == if all_white(x) {
            trim_start(y)
        } else {
            trim_start(x) + y
        },
    decreases x.len(),
{
    if x.len() == 0 {
        assert(x + y =~= y);
    } else {
        assert((x + y)[0] == x[0]);
        assert((x + y).drop_first() =~= x.drop_first() + y);
        if is_white(x[0]) {
            lemma_trim_start_append(x.drop_first(), y);
            if all_white(x.drop_first()) {
                assert forall|j: int| 0 <= j < x.len() implies is_white(#[trigger] x[j]) by {
                    if j > 0 {
                        assert(x[j] == x.drop_first()[j - 1]);
                    }
                }
            } else {
                let j0 = choose|j: int| 0 <= j < x.drop_first().len() && !is_white(#[trigger] x.drop_first()[j]);
                assert(x[j0 + 1] == x.drop_first()[j0]);
            }
        } else {
        }
    }
}

/// A `'\r'` at the end of a line does not change its trimmed form.
pub proof fn lemma_trim_strip_cr(l: Seq<char>)
    ensures
        trim(strip_cr(l)) == trim(l),
{
    if l.len() > 0 && l.last() == '\r' {
        let x = l.drop_last();
        assert(l =~= x + seq!['\r']);
        lemma_trim_start_append(x, seq!['\r']);
        if all_white(x) {
            assert(trim_start(seq!['\r']).len() == 0) by {
                let e = Seq::<char>::empty();
                assert(seq!['\r'].drop_first() =~= e);
                assert(trim_start(e) == e);
                assert(is_white('\r'));
                assert(trim_start(seq!['\r']) == trim_start(e));
            }
            let k = lemma_trim_start_skip(x);
            if k < x.len() {
                assert(is_white(x[k]));
            }
            assert(x.skip(k).len() == 0);
        } else {
            let y = trim_start(x);
            assert((y + seq!['\r']).drop_last() =~= y);
        }
    }
}

/// Each line that `lines` returns is free of `'\n'`.
pub proof fn lemma_lines_lack_newline(s: Seq<char>)
    ensures
        all_lack_newline(lines(s)),
    decreases s.len(),
{
    if s.len() > 0 {
        let k = first_index_of(s, '\n');
        lemma_first_index_of(s, '\n');
        if 0 <= k < s.len() {
            lemma_lines_lack_newline(s.skip(k + 1));
            let first = strip_cr(s.take(k));
            assert(lacks(first, '\n')) by {
                assert forall|j: int| 0 <= j < first.len() implies first[j] != '\n' by {
                    assert(first[j] == s.take(k)[j]);
                }
            }
            let rest = lines(s.skip(k + 1));
            assert forall|i: int| 0 <= i < lines(s).len() implies lacks(#[trigger] lines(s)[i], '\n') by {
                if i > 0 {
                    assert(lines(s)[i] == rest[i - 1]);
                }
            }
        } else {
            assert(s.take(k) =~= s);
        }
    }
}

/// A character that the text lacks, its lines lack too.
pub proof fn lemma_lines_lack(s: Seq<char>, c: char)
    requires
        lacks(s, c),
    ensures
        forall|i: int| 0 <= i < lines(s).len() ==> lacks(#[trigger] lines(s)[i], c),
    decreases s.len(),
{
    if s.len() > 0 {
        let k = first_index_of(s, '\n');
        lemma_first_index_of(s, '\n');
        if 0 <= k < s.len() {
            let tail = s.skip(k + 1);
            assert forall|j: int| 0 <= j < tail.len() implies tail[j] != c by {
                assert(tail[j] == s[j + k + 1]);
            }
            lemma_lines_lack(tail, c);
            let first = strip_cr(s.take(k));
            assert forall|j: int| 0 <= j < first.len() implies first[j] != c by {
                assert(first[j] == s[j]);
            }
            let rest = lines(tail);
            assert forall|i: int| 0 <= i < lines(s).len() implies lacks(#[trigger] lines(s)[i], c) by {
                if i > 0 {
                    assert(lines(s)[i] == rest[i - 1]);
                } else {
                    assert(lines(s)[0] == first);
                }
            }
        } else {
            assert(lines(s)[0] == s);
        }
    }
}

} // verus!

verus! {

/// `s.split(sep).nth(1)`: the text between the first and the second `sep`
/// (or the end), or `None` when `sep` does not occur.
pub open spec fn second_field(s: Seq<char>, sep: char) -> Option<Seq<char>> {
    let i = first_index_of(s, sep);
    if 0 <= i < s.len() {
        let rest = s.skip(i + 1);
        Some(rest.take(first_index_of(rest, sep)))
    } else {
        None
    }
}

pub fn first_index_of_exec(s: &Vec<char>, from: usize, c: char) -> (k: usize)
    requires
        from <= s.len(),
    ensures
        from <= k <= s.len(),
        k - from == first_index_of(s@.skip(from as int), c),
{
    let mut k: usize = from;
    while k < s.len() && s[k] != c
        invariant
            from <= k <= s.len(),
            forall|j: int| from <= j < k ==> s@[j] != c,
        decreases s.len() - k,
    {
        k = k + 1;
    }
    proof {
        lemma_first_index_is(s@.skip(from as int), c, k - from);
    }
    k
}

pub fn second_field_exec(s: &Vec<char>, sep: char) -> (r: Option<Vec<char>>)
    ensures
        r matches Some(v) ==> second_field(s@, sep) == Some(v@),
        r is None ==> second_field(s@, sep) is None,
{
    let i = first_index_of_exec(s, 0, sep);
    assert(s@.skip(0) =~= s@);
    if i < s.len() {
        let j = first_index_of_exec(s, i + 1, sep);
        let v = slice_of(s, i + 1, j);
        assert(v@ =~= s@.skip(i + 1).take(j - (i + 1)));
        Some(v)
    } else {
        None
    }
}

/// The code of `c` with ASCII upper case folded to lower case.
pub open spec fn ascii_fold(c: char) -> u32 {
    if 'A' <= c && c <= 'Z' {
        (c as u32 + 32) as u32
    } else {
        c as u32
    }
}

/// `str::eq_ignore_ascii_case`.
pub open spec fn eq_ignore_ascii_case(a: Seq<char>, b: Seq<char>) -> bool {
    a.len() == b.len() && forall|i: int| 0 <= i < a.len() ==> ascii_fold(#[trigger] a[i]) == ascii_fold(b[i])
}

fn ascii_fold_exec(c: char) -> (r: u32)
    ensures
        r == ascii_fold(c),
{
    if 'A' <= c && c <= 'Z' {
        (c as u32) + 32
    } else {
        c as u32
    }
}

pub fn eq_ignore_ascii_case_exec(a: &Vec<char>, b: &str) -> (r: bool)
    ensures
        r == eq_ignore_ascii_case(a@, b@),
{
    let bv = chars_of(b);
    if a.len() != bv.len() {
        return false;
    }
    let mut i: usize = 0;
    while i < a.len()
        invariant
            a.len() == bv.len(),
            bv@ == b@,
            i <= a.len(),
            forall|k: int| 0 <= k < i ==> ascii_fold(#[trigger] a@[k]) == ascii_fold(b@[k]),
        decreases a.len() - i,
    {
        if ascii_fold_exec(a[i]) != ascii_fold_exec(bv[i]) {
            return false;
        }
        i = i + 1;
    }
    true
}

/// The text equals the literal `b`.
pub fn eq_exec(a: &Vec<char>, b: &str) -> (r: bool)
    ensures
        r == (a@ == b@),
{
    let bv = chars_of(b);
    if a.len() != bv.len() {
        return false;
    }
    let r = occurs_at_exec(a, &bv, 0);
    assert(a@ =~= a@.subrange(0, bv@.len() as int));
    r
}

} // verus!

verus! {

/// Append the characters of `s`.
pub fn push_str(v: &mut Vec<char>, s: &str)
    ensures
        final(v)@ == old(v)@ + s@,
{
    let w = chars_of(s);
    push_all(v, &w);
}

/// Append the characters of `w`.
pub fn push_all(v: &mut Vec<char>, w: &Vec<char>)
    ensures
        final(v)@ == old(v)@ + w@,
{
    let ghost pre = v@;
    let mut j: usize = 0;
    while j < w.len()
        invariant
            j <= w.len(),
            v@ == pre + w@.take(j as int),
        decreases w.len() - j,
    {
        v.push(w[j]);
        j = j + 1;
        assert(v@ =~= pre + w@.take(j as int));
    }
    assert(w@.take(j as int) =~= w@);
}

/// The run of non-whitespace characters at the end of `t`.
pub open spec fn trailing_word(t: Seq<char>) -> Seq<char>
    decreases t.len(),
{
    if t.len() == 0 || is_white(t.last()) {
        Seq::empty()
    } else {
        trailing_word(t.drop_last()).push(t.last())
    }
}

/// A word at the end of a text, after whitespace or at its start, is its
/// trailing word.
pub proof fn lemma_trailing_word_of(p: Seq<char>, w: Seq<char>)
    requires
        forall|j: int| 0 <= j < w.len() ==> !is_white(#[trigger] w[j]),
        p.len() == 0 || is_white(p.last()),
    ensures
        trailing_word(p + w) == w,
    decreases w.len(),
{
    if w.len() == 0 {
        assert(p + w =~= p);
    } else {
        lemma_trailing_word_of(p, w.drop_last());
        assert((p + w).drop_last() =~= p + w.drop_last());
        assert((p + w).last() == w.last());
        assert(w.drop_last().push(w.last()) =~= w);
    }
}

/// `s.split_whitespace().last()`: the last whitespace-separated word.
pub open spec fn last_word(s: Seq<char>) -> Option<Seq<char>> {
    let t = trim_end(s);
    if t.len() == 0 {
        None
    } else {
        Some(trailing_word(t))
    }
}

pub fn last_word_exec(s: &Vec<char>) -> (r: Option<Vec<char>>)
    ensures
        r matches Some(w) ==> last_word(s@) == Some(w@),
        r is None ==> last_word(s@) is None,
{
    let mut k: usize = s.len();
    assert(s@.take(k as int) =~= s@);
    while k > 0 && is_white_exec(s[k - 1])
        invariant
            k <= s.len(),
            trim_end(s@) == trim_end(s@.take(k as int)),
        decreases k,
    {
        assert(s@.take(k as int).drop_last() =~= s@.take(k - 1));
        k = k - 1;
    }
    let ghost t = s@.take(k as int);
    assert(trim_end(t) == t);
    if k == 0 {
        return None;
    }
    let mut b: usize = k;
    assert(s@.subrange(k as int, k as int) =~= Seq::<char>::empty());
    assert(t.take(k as int) =~= t);
    while b > 0 && !is_white_exec(s[b - 1])
        invariant
            b <= k <= s.len(),
            t == s@.take(k as int),
            trailing_word(t) == trailing_word(t.take(b as int)) + s@.subrange(b as int, k as int),
        decreases b,
    {
        assert(t.take(b as int).drop_last() =~= t.take(b - 1));
        assert(t.take(b as int).last() == s@[b - 1]);
        assert(s@.subrange(b - 1, k as int) =~= seq![s@[b - 1]] + s@.subrange(b as int, k as int));
        b = b - 1;
    }
    if b > 0 {
        assert(t.take(b as int).last() == s@[b - 1]);
    }
    assert(trailing_word(t.take(b as int)) =~= Seq::<char>::empty());
    Some(slice_of(s, b, k))
}

} // verus!

verus! {

/// `str::replace` with a nonempty pattern: each occurrence of `pat`, found
/// from the left without overlap, becomes `to`.
pub open spec fn replace_all(s: Seq<char>, pat: Seq<char>, to: Seq<char>) -> Seq<char>
    decreases s.len(),
{
    if s.len() == 0 {
        Seq::empty()
    } else if pat.len() > 0 && starts_with(s, pat) {
        to + replace_all(s.skip(pat.len() as int), pat, to)
    } else {
        seq![s[0]] + replace_all(s.drop_first(), pat, to)
    }
}

pub fn replace_all_exec(s: &Vec<char>, pat: &str, to: &str) -> (r: Vec<char>)
    ensures
        r@ == replace_all(s@, pat@, to@),
{
    let pv = chars_of(pat);
    let tv = chars_of(to);
    let mut r: Vec<char> = Vec::new();
    let mut i: usize = 0;
    assert(s@.skip(0) =~= s@);
    while i < s.len()
        invariant
            i <= s.len(),
            pv@ == pat@,
            tv@ == to@,
            replace_all(s@, pat@, to@) == r@ + replace_all(s@.skip(i as int), pat@, to@),
        decreases s.len() - i,
    {
        let ghost rest = s@.skip(i as int);
        assert(rest.len() > 0);
        if pv.len() > 0 && occurs_at_exec(s, &pv, i) {
            assert(rest.subrange(0, pat@.len() as int) =~= s@.subrange(i as int, i + pat@.len()));
            assert(rest.skip(pat@.len() as int) =~= s@.skip(i + pv.len()));
            push_all(&mut r, &tv);
            i = i + pv.len();
        } else {
            proof {
                if pv.len() > 0 && i + pv.len() <= s.len() {
                    assert(rest.subrange(0, pat@.len() as int) =~= s@.subrange(i as int, i + pat@.len()));
                }
            }
            assert(rest.drop_first() =~= s@.skip(i + 1));
            assert(rest[0] == s@[i as int]);
            r.push(s[i]);
            i = i + 1;
        }
    }
    assert(s@.skip(i as int) =~= Seq::<char>::empty());
    assert(r@ + Seq::<char>::empty() =~= r@);
    r
}

/// The run of characters other than `c` at the end of `t`: for `c` = `/`,
/// `t.rsplit('/').next()`.
pub open spec fn after_last(t: Seq<char>, c: char) -> Seq<char>
    decreases t.len(),
{
    if t.len() == 0 || t.last() == c {
        Seq::empty()
    } else {
        after_last(t.drop_last(), c).push(t.last())
    }
}

pub fn after_last_exec(t: &Vec<char>, c: char) -> (r: Vec<char>)
    ensures
        r@ == after_last(t@, c),
{
    let mut b: usize = t.len();
    assert(t@.subrange(b as int, b as int) =~= Seq::<char>::empty());
    assert(t@.take(b as int) =~= t@);
    while b > 0 && t[b - 1] != c
        invariant
            b <= t.len(),
            after_last(t@, c) == after_last(t@.take(b as int), c) + t@.subrange(b as int, t.len() as int),
        decreases b,
    {
        assert(t@.take(b as int).drop_last() =~= t@.take(b - 1));
        assert(t@.take(b as int).last() == t@[b - 1]);
        assert(t@.subrange(b - 1, t.len() as int) =~= seq![t@[b - 1]] + t@.subrange(
            b as int,
            t.len() as int,
        ));
        b = b - 1;
    }
    if b > 0 {
        assert(t@.take(b as int).last() == t@[b - 1]);
    }
    assert(after_last(t@.take(b as int), c) =~= Seq::<char>::empty());
    slice_of(t, b, t.len())
}

} // verus!

verus! {

/// `trim_start` stops at the first character that is not whitespace.
pub proof fn lemma_trim_start_at(s: Seq<char>, k: int)
    requires
        0 <= k <= s.len(),
        all_white(s.take(k)),
        k < s.len() ==> !is_white(s[k]),
    ensures
        trim_start(s) == s.skip(k),
    decreases k,
{
    if k == 0 {
        assert(s.skip(0) =~= s);
    } else {
        assert(s.take(k)[0] == s[0]);
        assert forall|j: int| 0 <= j < k - 1 implies is_white(#[trigger] s.drop_first().take(k - 1)[j]) by {
            assert(s.drop_first().take(k - 1)[j] == s.take(k)[j + 1]);
        }
        lemma_trim_start_at(s.drop_first(), k - 1);
        assert(s.drop_first().skip(k - 1) =~= s.skip(k));
    }
}

/// `trim_end` stops at the last character that is not whitespace.
pub proof fn lemma_trim_end_at(s: Seq<char>, k: int)
    requires
        0 <= k <= s.len(),
        all_white(s.skip(k)),
        k > 0 ==> !is_white(s[k - 1]),
    ensures
        trim_end(s) == s.take(k),
    decreases s.len() - k,
{
    if k == s.len() {
        assert(s.take(k) =~= s);
    } else {
        assert(s.skip(k)[s.len() - 1 - k] == s.last());
        assert forall|j: int| 0 <= j < s.len() - 1 - k implies is_white(#[trigger] s.drop_last().skip(k)[j]) by {
            assert(s.drop_last().skip(k)[j] == s.skip(k)[j]);
        }
        lemma_trim_end_at(s.drop_last(), k);
        assert(s.drop_last().take(k) =~= s.take(k));
    }
}

/// `trim` keeps the slice between the first and the last character that is
/// not whitespace.
pub proof fn lemma_trim_bounds(s: Seq<char>) -> (ab: (int, int))
    ensures
        0 <= ab.0 <= ab.1 <= s.len(),
        trim(s) == s.subrange(ab.0, ab.1),
        all_white(s.take(ab.0)),
        all_white(s.skip(ab.1)),
        ab.0 < ab.1 ==> !is_white(s[ab.0]) && !is_white(s[ab.1 - 1]),
{
    let a = lemma_trim_start_skip(s);
    let b = lemma_trim_end_take(s);
    if a == s.len() {
        assert(trim_start(s) =~= Seq::<char>::empty());
        assert(trim(s) == trim_end(Seq::<char>::empty()));
        assert(s.skip(s.len() as int) =~= Seq::<char>::empty());
        assert(s.subrange(a, a) =~= Seq::<char>::empty());
        (a, a)
    } else {
        // `s[a]` is not whitespace, so the trailing whitespace starts after it.
        if b <= a {
            assert(s.skip(b)[a - b] == s[a]);
        }
        assert(a < b);
        assert(s.skip(a).skip(b - a) =~= s.skip(b));
        assert(s.skip(a)[b - a - 1] == s[b - 1]);
        lemma_trim_end_at(s.skip(a), b - a);
        assert(s.skip(a).take(b - a) =~= s.subrange(a, b));
        (a, b)
    }
}

} // verus!
