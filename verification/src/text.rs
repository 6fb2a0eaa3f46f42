//! Line-oriented text primitives: trimming, splitting into lines, joining.
//!
//! Every exec function here carries an exact contract over `Seq<char>`, so
//! the higher layers (noise filter, differencer, extractor) can be specified
//! end to end as functions on character sequences.

use vstd::prelude::*;
use vstd::string::StrSliceExecFns;

verus! {

/// ASCII whitespace, the set the trimming functions remove at line edges.
pub open spec fn is_space(c: char) -> bool {
    c == ' ' || c == '\t' || c == '\r' || c == '\n' || c == '\u{b}' || c == '\u{c}'
}

/// Number of whitespace characters at the front of `s`.
pub open spec fn leading_spaces(s: Seq<char>) -> int
    decreases s.len(),
{
    if s.len() == 0 || !is_space(s[0]) {
        0
    } else {
        1 + leading_spaces(s.drop_first())
    }
}

/// Number of whitespace characters at the back of `s`.
pub open spec fn trailing_spaces(s: Seq<char>) -> int
    decreases s.len(),
{
    if s.len() == 0 || !is_space(s.last()) {
        0
    } else {
        1 + trailing_spaces(s.drop_last())
    }
}

/// `s` with leading and trailing whitespace removed.
pub open spec fn trim_spec(s: Seq<char>) -> Seq<char> {
    if leading_spaces(s) == s.len() {
        Seq::empty()
    } else {
        s.subrange(leading_spaces(s), s.len() - trailing_spaces(s))
    }
}

pub proof fn lemma_leading_spaces(s: Seq<char>)
    ensures
        0 <= leading_spaces(s) <= s.len(),
        forall|i: int| 0 <= i < leading_spaces(s) ==> is_space(s[i]),
        leading_spaces(s) < s.len() ==> !is_space(s[leading_spaces(s)]),
    decreases s.len(),
{
    if s.len() == 0 || !is_space(s[0]) {
    } else {
        lemma_leading_spaces(s.drop_first());
        assert forall|i: int| 0 <= i < leading_spaces(s) implies is_space(s[i]) by {
            if i > 0 {
                assert(s.drop_first()[i - 1] == s[i]);
            }
        }
        if leading_spaces(s) < s.len() {
            assert(s.drop_first()[leading_spaces(s) - 1] == s[leading_spaces(s)]);
        }
    }
}

pub proof fn lemma_trailing_spaces(s: Seq<char>)
    ensures
        0 <= trailing_spaces(s) <= s.len(),
        forall|i: int| s.len() - trailing_spaces(s) <= i < s.len() ==> is_space(s[i]),
        trailing_spaces(s) < s.len() ==> !is_space(s[s.len() - trailing_spaces(s) - 1]),
    decreases s.len(),
{
    if s.len() == 0 || !is_space(s.last()) {
    } else {
        lemma_trailing_spaces(s.drop_last());
        assert forall|i: int| s.len() - trailing_spaces(s) <= i < s.len() implies is_space(
            s[i],
        ) by {
            if i < s.len() - 1 {
                assert(s.drop_last()[i] == s[i]);
            }
        }
        if trailing_spaces(s) < s.len() {
            assert(s.drop_last()[s.len() - trailing_spaces(s) - 1] == s[s.len() - trailing_spaces(
                s,
            ) - 1]);
        }
    }
}

/// The count of leading spaces is the unique cut with spaces before it and a
/// non-space (or the end) at it.
pub proof fn lemma_leading_spaces_is(s: Seq<char>, k: int)
    requires
        0 <= k <= s.len(),
        forall|i: int| 0 <= i < k ==> is_space(s[i]),
        k < s.len() ==> !is_space(s[k]),
    ensures
        leading_spaces(s) == k,
{
    lemma_leading_spaces(s);
    if leading_spaces(s) < k {
        assert(is_space(s[leading_spaces(s)]));
    }
    if k < leading_spaces(s) {
        assert(is_space(s[k]));
    }
}

pub proof fn lemma_trailing_spaces_is(s: Seq<char>, k: int)
    requires
        0 <= k <= s.len(),
        forall|i: int| s.len() - k <= i < s.len() ==> is_space(s[i]),
        k < s.len() ==> !is_space(s[s.len() - k - 1]),
    ensures
        trailing_spaces(s) == k,
{
    lemma_trailing_spaces(s);
    if trailing_spaces(s) < k {
        assert(is_space(s[s.len() - trailing_spaces(s) - 1]));
    }
    if k < trailing_spaces(s) {
        assert(is_space(s[s.len() - k - 1]));
    }
}

/// Shape of a trimmed, non-empty line: no whitespace at either edge.
pub proof fn lemma_trim_shape(s: Seq<char>)
    ensures
        trim_spec(s).len() <= s.len(),
        trim_spec(s).len() > 0 ==> !is_space(trim_spec(s)[0]),
        trim_spec(s).len() > 0 ==> !is_space(trim_spec(s).last()),
        leading_spaces(s) < s.len() ==> leading_spaces(s) + trailing_spaces(s) < s.len(),
        forall|i: int|
            0 <= i < trim_spec(s).len() ==> #[trigger] trim_spec(s)[i] == s[leading_spaces(s) + i],
{
    lemma_leading_spaces(s);
    lemma_trailing_spaces(s);
    let a: int = leading_spaces(s);
    let b: int = trailing_spaces(s);
    if a < s.len() {
        if s.len() - b <= a {
            assert(is_space(s[a]));
        }
        assert(a < s.len() - b);
        assert(s.len() - b - 1 >= a);
        assert(!is_space(s[s.len() - b - 1])) by {
            if b < s.len() {
            } else {
                assert(is_space(s[a]));
            }
        }
        assert forall|i: int| 0 <= i < trim_spec(s).len() implies #[trigger] trim_spec(s)[i]
            == s[leading_spaces(s) + i] by {
            assert(trim_spec(s)[i] == s[a + i]);
        }
    }
}

/// Trimming is idempotent.
pub proof fn lemma_trim_idempotent(s: Seq<char>)
    ensures
        trim_spec(trim_spec(s)) == trim_spec(s),
{
    lemma_trim_shape(s);
    let t: Seq<char> = trim_spec(s);
    if t.len() == 0 {
        assert(leading_spaces(t) == 0);
        assert(trim_spec(t) =~= t);
    } else {
        assert(leading_spaces(t) == 0);
        assert(trailing_spaces(t) == 0);
        assert(trim_spec(t) =~= t);
    }
}

/// Index of the first newline in `s`, or `s.len()` if there is none.
pub open spec fn newline_pos(s: Seq<char>) -> int
    decreases s.len(),
{
    if s.len() == 0 {
        0
    } else if s[0] == '\n' {
        0
    } else {
        1 + newline_pos(s.drop_first())
    }
}

pub proof fn lemma_newline_pos(s: Seq<char>)
    ensures
        0 <= newline_pos(s) <= s.len(),
        forall|i: int| 0 <= i < newline_pos(s) ==> s[i] != '\n',
        newline_pos(s) < s.len() ==> s[newline_pos(s)] == '\n',
    decreases s.len(),
{
    if s.len() == 0 || s[0] == '\n' {
    } else {
        lemma_newline_pos(s.drop_first());
        assert forall|i: int| 0 <= i < newline_pos(s) implies s[i] != '\n' by {
            if i > 0 {
                assert(s.drop_first()[i - 1] == s[i]);
            }
        }
        if newline_pos(s) < s.len() {
            assert(s.drop_first()[newline_pos(s) - 1] == s[newline_pos(s)]);
        }
    }
}

/// `s` without a single trailing carriage return, if it carries one.
pub open spec fn strip_cr(s: Seq<char>) -> Seq<char> {
    if s.len() > 0 && s.last() == '\r' {
        s.drop_last()
    } else {
        s
    }
}

/// The lines of `t`, split at `'\n'`, with one `'\r'` stripped before each
/// split point; a final line terminator yields no extra empty line.
pub open spec fn lines_of(t: Seq<char>) -> Seq<Seq<char>>
    decreases t.len(),
{
    if t.len() == 0 {
        Seq::empty()
    } else {
        let i: int = newline_pos_clipped(t);
        if i == t.len() {
            seq![t]
        } else {
            seq![strip_cr(t.subrange(0, i))] + lines_of(t.subrange(i + 1, t.len() as int))
        }
    }
}

/// `newline_pos`, bounded into `[0, t.len()]` so that recursion on it is
/// visibly well founded.
pub open spec fn newline_pos_clipped(t: Seq<char>) -> int {
    let i: int = newline_pos(t);
    if 0 <= i <= t.len() {
        i
    } else {
        t.len() as int
    }
}

/// The lines joined back with single `'\n'` separators.
pub open spec fn join_nl(ls: Seq<Seq<char>>) -> Seq<char>
    decreases ls.len(),
{
    if ls.len() == 0 {
        Seq::empty()
    } else if ls.len() == 1 {
        ls[0]
    } else {
        ls[0] + seq!['\n'] + join_nl(ls.drop_first())
    }
}

/// Appending one more line to a join adds one separator and the line.
pub proof fn lemma_join_nl_push(ls: Seq<Seq<char>>, l: Seq<char>)
    ensures
        ls.len() == 0 ==> join_nl(ls.push(l)) == l,
        ls.len() > 0 ==> join_nl(ls.push(l)) == join_nl(ls) + seq!['\n'] + l,
    decreases ls.len(),
{
    if ls.len() == 0 {
        assert(ls.push(l)[0] == l);
        assert(join_nl(ls.push(l)) == l);
    } else if ls.len() == 1 {
        assert(ls.push(l)[0] == ls[0]);
        assert(ls.push(l).drop_first() =~= seq![l]);
        assert(join_nl(seq![l]) == seq![l][0]);
        assert(seq![l][0] == l);
        assert(join_nl(ls.push(l)) == ls[0] + seq!['\n'] + l);
        assert(join_nl(ls) == ls[0]);
    } else {
        lemma_join_nl_push(ls.drop_first(), l);
        assert(ls.push(l).drop_first() =~= ls.drop_first().push(l));
        assert(join_nl(ls.push(l)) == ls[0] + seq!['\n'] + join_nl(ls.drop_first().push(l)));
        assert(join_nl(ls) + seq!['\n'] + l =~= ls[0] + seq!['\n'] + (join_nl(ls.drop_first())
            + seq!['\n'] + l));
    }
}

/// A line as it can appear inside a joined text: non-empty, free of `'\n'`,
/// and not ending in `'\r'`.
pub open spec fn line_shaped(l: Seq<char>) -> bool {
    &&& l.len() > 0
    &&& forall|i: int| 0 <= i < l.len() ==> l[i] != '\n'
    &&& l.last() != '\r'
}

proof fn lemma_newline_pos_absent(s: Seq<char>)
    requires
        forall|i: int| 0 <= i < s.len() ==> s[i] != '\n',
    ensures
        newline_pos(s) == s.len(),
    decreases s.len(),
{
    if s.len() > 0 {
        assert forall|i: int| 0 <= i < s.drop_first().len() implies s.drop_first()[i] != '\n' by {
            assert(s.drop_first()[i] == s[i + 1]);
        }
        lemma_newline_pos_absent(s.drop_first());
    }
}

proof fn lemma_newline_pos_concat(a: Seq<char>, b: Seq<char>)
    requires
        forall|i: int| 0 <= i < a.len() ==> a[i] != '\n',
        b.len() > 0,
        b[0] == '\n',
    ensures
        newline_pos(a + b) == a.len(),
    decreases a.len(),
{
    if a.len() == 0 {
        assert(a + b =~= b);
    } else {
        assert((a + b)[0] == a[0]);
        assert((a + b).drop_first() =~= a.drop_first() + b);
        assert forall|i: int| 0 <= i < a.drop_first().len() implies a.drop_first()[i] != '\n' by {
            assert(a.drop_first()[i] == a[i + 1]);
        }
        lemma_newline_pos_concat(a.drop_first(), b);
    }
}

/// Splitting a join recovers exactly the lines that were joined, provided
/// each line is shaped like a line.
pub proof fn lemma_lines_of_join(ls: Seq<Seq<char>>)
    requires
        forall|i: int| 0 <= i < ls.len() ==> #[trigger] line_shaped(ls[i]),
    ensures
        lines_of(join_nl(ls)) == ls,
    decreases ls.len(),
{
    if ls.len() == 0 {
    } else if ls.len() == 1 {
        let l: Seq<char> = ls[0];
        assert(line_shaped(l));
        lemma_newline_pos_absent(l);
        assert(lines_of(l) =~= seq![l]);
        assert(lines_of(join_nl(ls)) =~= ls);
    } else {
        let l: Seq<char> = ls[0];
        let rest: Seq<Seq<char>> = ls.drop_first();
        assert(line_shaped(l));
        let t: Seq<char> = join_nl(ls);
        let tail: Seq<char> = seq!['\n'] + join_nl(rest);
        assert(t =~= l + tail);
        lemma_newline_pos_concat(l, tail);
        assert(newline_pos(t) == l.len());
        assert(newline_pos_clipped(t) == l.len());
        assert(t.len() > l.len());
        assert(t.subrange(0, l.len() as int) =~= l);
        assert(strip_cr(l) == l);
        assert(t.subrange(l.len() as int + 1, t.len() as int) =~= join_nl(rest));
        assert forall|i: int| 0 <= i < rest.len() implies #[trigger] line_shaped(rest[i]) by {
            assert(rest[i] == ls[i + 1]);
        }
        lemma_lines_of_join(rest);
        assert(lines_of(t) =~= seq![l] + rest);
        assert(seq![l] + rest =~= ls);
    }
}

/// Exec mirror of `is_space`.
pub fn is_space_char(c: char) -> (b: bool)
    ensures
        b == is_space(c),
{
    c == ' ' || c == '\t' || c == '\r' || c == '\n' || c == '\u{b}' || c == '\u{c}'
}

/// The characters of `s`, as an indexable vector.
pub fn chars_vec(s: &str) -> (v: Vec<char>)
    ensures
        v@ == s@,
{
    let n: usize = s.unicode_len();
    let mut v: Vec<char> = Vec::new();
    let mut i: usize = 0;
    while i < n
        invariant
            n == s@.len(),
            i <= n,
            v@ =~= s@.take(i as int),
        decreases n - i,
    {
        let c = s.get_char(i);
        v.push(c);
        i += 1;
        proof {
            assert(v@ =~= s@.take(i as int));
        }
    }
    proof {
        assert(s@.take(n as int) =~= s@);
    }
    v
}

/// Relies on `String::push`, which appends the character to the string.
#[verifier::external_body]
pub(crate) fn push_char(s: &mut String, c: char)
    ensures
        final(s)@ == old(s)@.push(c),
{
    s.push(c);
}

/// A `String` holding exactly the given characters.
pub fn string_of_chars(v: &Vec<char>) -> (s: String)
    ensures
        s@ == v@,
{
    let mut s = String::new();
    let n: usize = v.len();
    let mut i: usize = 0;
    while i < n
        invariant
            n == v@.len(),
            i <= n,
            s@ =~= v@.take(i as int),
        decreases n - i,
    {
        push_char(&mut s, v[i]);
        i += 1;
        proof {
            assert(s@ =~= v@.take(i as int));
        }
    }
    proof {
        assert(v@.take(n as int) =~= v@);
    }
    s
}

/// The line with surrounding whitespace removed.
pub fn trim_chars(v: &Vec<char>) -> (r: Vec<char>)
    ensures
        r@ == trim_spec(v@),
{
    let n: usize = v.len();
    let mut a: usize = 0;
    while a < n && is_space_char(v[a])
        invariant
            n == v@.len(),
            a <= n,
            forall|i: int| 0 <= i < a ==> is_space(v@[i]),
        decreases n - a,
    {
        a += 1;
    }
    proof {
        lemma_leading_spaces_is(v@, a as int);
    }
    if a == n {
        let r: Vec<char> = Vec::new();
        proof {
            assert(r@ =~= trim_spec(v@));
        }
        return r;
    }
    let mut b: usize = 0;
    while b < n && is_space_char(v[n - 1 - b])
        invariant
            n == v@.len(),
            b <= n,
            forall|i: int| n - b <= i < n ==> is_space(v@[i]),
        decreases n - b,
    {
        b += 1;
        proof {
            assert forall|i: int| n - b <= i < n implies is_space(v@[i]) by {
                if i > n - b as int {
                } else {
                    assert(i == n - b as int);
                }
            }
        }
    }
    proof {
        lemma_trailing_spaces_is(v@, b as int);
        lemma_trim_shape(v@);
        assert((a as int) < n - b);
    }
    let mut r: Vec<char> = Vec::new();
    let hi: usize = n - b;
    let mut i: usize = a;
    while i < hi
        invariant
            n == v@.len(),
            a <= i <= hi,
            hi == n - b,
            a as int <= n - b as int <= n,
            r@ =~= v@.subrange(a as int, i as int),
        decreases hi - i,
    {
        r.push(v[i]);
        i += 1;
        proof {
            assert(r@ =~= v@.subrange(a as int, i as int));
        }
    }
    proof {
        assert(r@ =~= trim_spec(v@));
    }
    r
}

/// Whether two lines hold the same characters.
pub fn line_eq(x: &Vec<char>, y: &Vec<char>) -> (r: bool)
    ensures
        r == (x@ == y@),
{
    if x.len() != y.len() {
        return false;
    }
    let n: usize = x.len();
    let mut i: usize = 0;
    while i < n
        invariant
            n == x@.len(),
            n == y@.len(),
            i <= n,
            forall|j: int| 0 <= j < i ==> x@[j] == y@[j],
        decreases n - i,
    {
        if x[i] != y[i] {
            return false;
        }
        i += 1;
    }
    proof {
        assert(x@ =~= y@);
    }
    true
}

/// The deep view of a vector of lines indexes to the views of its lines.
pub proof fn lemma_lines_deep_view(ls: &Vec<Vec<char>>)
    ensures
        ls.deep_view().len() == ls@.len(),
        forall|i: int| 0 <= i < ls@.len() ==> ls.deep_view()[i] == ls@[i]@,
{
    assert forall|i: int| 0 <= i < ls@.len() implies ls.deep_view()[i] == ls@[i]@ by {
        assert(ls@[i].deep_view() =~= ls@[i]@);
    }
}

/// Whether some line of `ls` holds the same characters as `l`.
pub fn contains_line(ls: &Vec<Vec<char>>, l: &Vec<char>) -> (r: bool)
    ensures
        r == ls.deep_view().contains(l@),
{
    let n: usize = ls.len();
    let mut i: usize = 0;
    while i < n
        invariant
            n == ls@.len(),
            i <= n,
            forall|j: int| 0 <= j < i ==> ls.deep_view()[j] != l@,
        decreases n - i,
    {
        if line_eq(&ls[i], l) {
            proof {
                lemma_lines_deep_view(ls);
                assert(ls.deep_view()[i as int] == l@);
            }
            return true;
        }
        i += 1;
        proof {
            lemma_lines_deep_view(ls);
        }
    }
    proof {
        assert(forall|j: int| 0 <= j < ls.deep_view().len() ==> ls.deep_view()[j] != l@);
    }
    false
}

/// A sequence of characters free of newlines.
pub open spec fn no_newline(l: Seq<char>) -> bool {
    forall|j: int| 0 <= j < l.len() ==> l[j] != '\n'
}

/// Every line produced by `lines_of` is free of newlines.
pub proof fn lemma_lines_of_no_newline(t: Seq<char>)
    ensures
        forall|i: int| 0 <= i < lines_of(t).len() ==> #[trigger] no_newline(lines_of(t)[i]),
    decreases t.len(),
{
    lemma_newline_pos(t);
    if t.len() == 0 {
    } else {
        let i: int = newline_pos_clipped(t);
        if i == t.len() {
            assert(no_newline(t));
            assert(lines_of(t) == seq![t]);
            assert(lines_of(t)[0] == t);
        } else {
            let head: Seq<char> = strip_cr(t.subrange(0, i));
            let rest: Seq<Seq<char>> = lines_of(t.subrange(i + 1, t.len() as int));
            lemma_lines_of_no_newline(t.subrange(i + 1, t.len() as int));
            assert(no_newline(t.subrange(0, i)));
            assert(no_newline(head));
            assert forall|k: int| 0 <= k < lines_of(t).len() implies #[trigger] no_newline(
                lines_of(t)[k],
            ) by {
                if k == 0 {
                    assert(lines_of(t)[0] == head);
                } else {
                    assert(lines_of(t)[k] == rest[k - 1]);
                }
            }
        }
    }
}

/// Line splitting, resumed: the lines of `cur + rest`, where `cur` is the
/// portion of the current line already consumed.
pub open spec fn lines_cont(cur: Seq<char>, rest: Seq<char>) -> Seq<Seq<char>>
    decreases rest.len(),
{
    if rest.len() == 0 {
        if cur.len() == 0 {
            Seq::empty()
        } else {
            seq![cur]
        }
    } else if rest[0] == '\n' {
        seq![strip_cr(cur)] + lines_cont(Seq::empty(), rest.drop_first())
    } else {
        lines_cont(cur.push(rest[0]), rest.drop_first())
    }
}

pub proof fn lemma_lines_cont(cur: Seq<char>, rest: Seq<char>)
    requires
        no_newline(cur),
    ensures
        lines_cont(cur, rest) == lines_of(cur + rest),
    decreases rest.len(),
{
    if rest.len() == 0 {
        assert(cur + rest =~= cur);
        if cur.len() == 0 {
        } else {
            lemma_newline_pos_absent(cur);
            assert(lines_of(cur) =~= seq![cur]);
        }
    } else if rest[0] == '\n' {
        let t: Seq<char> = cur + rest;
        lemma_newline_pos_concat(cur, rest);
        assert(newline_pos(t) == cur.len());
        assert(newline_pos_clipped(t) == cur.len());
        assert((newline_pos_clipped(t) as int) < t.len());
        assert(t.subrange(0, cur.len() as int) =~= cur);
        assert(t.subrange(cur.len() as int + 1, t.len() as int) =~= rest.drop_first());
        assert(no_newline(Seq::<char>::empty()));
        lemma_lines_cont(Seq::empty(), rest.drop_first());
        assert(Seq::<char>::empty() + rest.drop_first() =~= rest.drop_first());
        assert(lines_of(t) == seq![strip_cr(cur)] + lines_of(rest.drop_first()));
    } else {
        let cur2: Seq<char> = cur.push(rest[0]);
        assert(no_newline(cur2)) by {
            assert forall|j: int| 0 <= j < cur2.len() implies cur2[j] != '\n' by {
                if j < cur.len() {
                    assert(cur2[j] == cur[j]);
                }
            }
        }
        lemma_lines_cont(cur2, rest.drop_first());
        assert(cur2 + rest.drop_first() =~= cur + rest);
    }
}

/// The lines of `v`, as vectors of characters.
pub fn split_lines(v: &Vec<char>) -> (ls: Vec<Vec<char>>)
    ensures
        ls.deep_view() == lines_of(v@),
{
    let n: usize = v.len();
    let mut ls: Vec<Vec<char>> = Vec::new();
    let mut cur: Vec<char> = Vec::new();
    let mut i: usize = 0;
    proof {
        assert(v@.skip(0) =~= v@);
        assert(Seq::<char>::empty() + v@ =~= v@);
        lemma_lines_cont(cur@, v@);
    }
    while i < n
        invariant
            n == v@.len(),
            i <= n,
            no_newline(cur@),
            ls.deep_view() + lines_cont(cur@, v@.skip(i as int)) == lines_of(v@),
        decreases n - i,
    {
        let ghost rest: Seq<char> = v@.skip(i as int);
        proof {
            assert(rest[0] == v@[i as int]);
            assert(rest.drop_first() =~= v@.skip(i as int + 1));
        }
        let c = v[i];
        if c == '\n' {
            let ghost old_cur: Seq<char> = cur@;
            if cur.len() > 0 && cur[cur.len() - 1] == '\r' {
                cur.pop();
            }
            proof {
                assert(cur@ == strip_cr(old_cur));
            }
            let ghost old_ls: Seq<Seq<char>> = ls.deep_view();
            ls.push(cur);
            proof {
                lemma_lines_deep_view(&ls);
                assert(ls.deep_view() =~= old_ls.push(strip_cr(old_cur)));
                assert(old_ls.push(strip_cr(old_cur)) + lines_cont(
                    Seq::empty(),
                    rest.drop_first(),
                ) =~= old_ls + (seq![strip_cr(old_cur)] + lines_cont(
                    Seq::empty(),
                    rest.drop_first(),
                )));
            }
            cur = Vec::new();
        } else {
            let ghost old_cur: Seq<char> = cur@;
            cur.push(c);
            proof {
                assert(cur@ == old_cur.push(c));
                assert forall|j: int| 0 <= j < cur@.len() implies cur@[j] != '\n' by {
                    if j < old_cur.len() {
                        assert(cur@[j] == old_cur[j]);
                    }
                }
            }
        }
        i += 1;
    }
    proof {
        assert(v@.skip(n as int) =~= Seq::<char>::empty());
    }
    if cur.len() > 0 {
        let ghost old_ls: Seq<Seq<char>> = ls.deep_view();
        ls.push(cur);
        proof {
            lemma_lines_deep_view(&ls);
            assert(ls.deep_view() =~= old_ls.push(cur@));
            assert(old_ls.push(cur@) =~= old_ls + seq![cur@]);
        }
    } else {
        proof {
            assert(ls.deep_view() + Seq::<Seq<char>>::empty() =~= ls.deep_view());
        }
    }
    ls
}

/// Whether two string slices hold the same characters.
pub fn str_eq(a: &str, b: &str) -> (r: bool)
    ensures
        r == (a@ == b@),
{
    let av = chars_vec(a);
    let bv = chars_vec(b);
    line_eq(&av, &bv)
}

/// The views of a vector of strings, indexed.
pub proof fn lemma_strings_view(v: &Vec<String>)
    ensures
        v.deep_view().len() == v@.len(),
        forall|i: int| 0 <= i < v@.len() ==> v.deep_view()[i] == v@[i]@,
{
}

} // verus!
