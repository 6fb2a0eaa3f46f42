//! The noise filter: strips lines that are statistically likely to be
//! volatile boilerplate (advertising chrome, bare timestamps, residue),
//! independent of any particular site.

use vstd::prelude::*;
use vstd::string::StringExecFns;

use crate::text::{
    chars_vec, is_space, join_nl, lemma_join_nl_push, lemma_lines_deep_view,
    lemma_lines_of_join, lemma_lines_of_no_newline, lemma_trim_idempotent, lemma_trim_shape,
    leading_spaces, line_shaped, lines_of, no_newline, split_lines, string_of_chars,
    trailing_spaces, trim_chars, trim_spec,
};

verus! {

/// What `regex` answers for a line held against the advertising lexicon.
/// The pattern is fixed, so the result is a function of the line alone.
pub uninterp spec fn ad_match(line: Seq<char>) -> bool;

/// What `regex` answers for a line held against the timestamp patterns.
pub uninterp spec fn time_match(line: Seq<char>) -> bool;

/// Relies on `regex::Regex::is_match` over the fixed, case-insensitive
/// advertising lexicon below; with the pattern constant, the answer depends
/// on the line alone.
#[verifier::external_body]
fn ad_line_match(line: &Vec<char>) -> (r: bool)
    ensures
        r == ad_match(line@),
{
    let s: String = line.iter().collect();
    let pat = "(?i)advertisement|sponsored|ad\\s*choice|cookie\\s*policy|accept\\s*cookies|subscribe\\s*now|sign\\s*up|newsletter|follow\\s*us|share\\s*this|advertisement\\s*close|\u{d7}\\s*close|skip\\s*to\\s*content|skip\\s*ad";
    regex::Regex::new(pat).expect("fixed pattern").is_match(&s)
}

/// Relies on `regex::Regex::is_match` over the fixed timestamp and
/// "last updated" patterns below; with the pattern constant, the answer
/// depends on the line alone.
#[verifier::external_body]
fn time_line_match(line: &Vec<char>) -> (r: bool)
    ensures
        r == time_match(line@),
{
    let s: String = line.iter().collect();
    let pat = "\\d{1,2}:\\d{2}(?::\\d{2})?(?:\\s*[AP]M)?|\\d{4}-\\d{2}-\\d{2}|\\d{2}/\\d{2}/\\d{4}|\\d{1,2}/\\d{1,2}/\\d{2,4}|(?:Monday|Tuesday|Wednesday|Thursday|Friday|Saturday|Sunday)|(?:Jan|Feb|Mar|Apr|May|Jun|Jul|Aug|Sep|Oct|Nov|Dec)\\s+\\d{1,2}|Last updated?:?\\s*.*|Updated?:?\\s*\\d+\\s*(?:seconds?|minutes?|hours?|days?)\\s*ago|Published?:?\\s*.*";
    regex::Regex::new(pat).expect("fixed pattern").is_match(&s)
}

/// Whether an already-trimmed line survives the filter: long enough to be
/// content, not advertising chrome, and not a short bare-timestamp line.
/// A long line that merely contains a date substring is kept.
pub open spec fn kept_line(l: Seq<char>) -> bool {
    &&& l.len() >= 3
    &&& !ad_match(l)
    &&& !(time_match(l) && l.len() < 100)
}

/// The surviving lines: each line trimmed, then dropped unless it passes
/// `kept_line`; relative order preserved.
pub open spec fn norm_lines(ls: Seq<Seq<char>>) -> Seq<Seq<char>>
    decreases ls.len(),
{
    if ls.len() == 0 {
        Seq::empty()
    } else {
        let prior = norm_lines(ls.drop_last());
        let t = trim_spec(ls.last());
        if kept_line(t) {
            prior.push(t)
        } else {
            prior
        }
    }
}

/// The whole filter: split into lines, trim, keep the content lines, and
/// join the survivors back with newlines.
pub open spec fn filter_spec(t: Seq<char>) -> Seq<char> {
    join_nl(norm_lines(lines_of(t)))
}

/// Exec mirror of `kept_line` on a trimmed line.
fn keep_check(t: &Vec<char>) -> (r: bool)
    ensures
        r == kept_line(t@),
{
    if t.len() < 3 {
        return false;
    }
    if ad_line_match(t) {
        return false;
    }
    if time_line_match(t) && t.len() < 100 {
        return false;
    }
    true
}

/// Strips volatile boilerplate from extracted page text: drops empty and
/// near-empty lines, advertising phrases, and short bare-timestamp lines,
/// and rejoins the survivors in order.
pub fn filter_noise(content: &str) -> (r: String)
    ensures
        r@ == filter_spec(content@),
{
    let cv = chars_vec(content);
    let ls = split_lines(&cv);
    let n: usize = ls.len();
    proof {
        lemma_lines_deep_view(&ls);
    }
    let mut kept: Vec<Vec<char>> = Vec::new();
    let mut j: usize = 0;
    while j < n
        invariant
            n == ls@.len(),
            j <= n,
            ls.deep_view() == lines_of(cv@),
            cv@ == content@,
            kept.deep_view() == norm_lines(ls.deep_view().take(j as int)),
        decreases n - j,
    {
        proof {
            lemma_lines_deep_view(&ls);
        }
        let t = trim_chars(&ls[j]);
        let ghost before: Seq<Seq<char>> = kept.deep_view();
        let ghost taken: Seq<Seq<char>> = ls.deep_view().take(j as int + 1);
        proof {
            assert(taken.drop_last() =~= ls.deep_view().take(j as int));
            assert(taken.last() == ls.deep_view()[j as int]);
            assert(ls.deep_view()[j as int] == ls@[j as int]@);
        }
        if keep_check(&t) {
            kept.push(t);
            proof {
                lemma_lines_deep_view(&kept);
                assert(kept.deep_view() =~= before.push(trim_spec(ls@[j as int]@)));
                assert(kept.deep_view() =~= norm_lines(taken));
            }
        } else {
            proof {
                assert(kept.deep_view() =~= norm_lines(taken));
            }
        }
        j += 1;
    }
    proof {
        assert(ls.deep_view().take(n as int) =~= ls.deep_view());
    }
    join_lines(&kept)
}

/// The lines joined with single newline separators.
pub(crate) fn join_lines(kept: &Vec<Vec<char>>) -> (r: String)
    ensures
        r@ == join_nl(kept.deep_view()),
{
    let mut out = String::new();
    let m: usize = kept.len();
    let mut j: usize = 0;
    while j < m
        invariant
            m == kept@.len(),
            j <= m,
            out@ == join_nl(kept.deep_view().take(j as int)),
        decreases m - j,
    {
        proof {
            lemma_lines_deep_view(kept);
        }
        if j > 0 {
            crate::text::push_char(&mut out, '\n');
        }
        let piece = string_of_chars(&kept[j]);
        out.append(piece.as_str());
        proof {
            let prefix: Seq<Seq<char>> = kept.deep_view().take(j as int);
            let now: Seq<Seq<char>> = kept.deep_view().take(j as int + 1);
            lemma_join_nl_push(prefix, kept.deep_view()[j as int]);
            assert(now =~= prefix.push(kept.deep_view()[j as int]));
            if j == 0 {
                assert(out@ =~= join_nl(now));
            } else {
                assert(out@ =~= join_nl(prefix) + seq!['\n'] + kept.deep_view()[j as int]);
                assert(out@ =~= join_nl(now));
            }
        }
        j += 1;
    }
    proof {
        assert(kept.deep_view().take(m as int) =~= kept.deep_view());
    }
    out
}

/// Every surviving line is already trimmed, passes the filter, and is
/// shaped like a line (non-empty, no newline, no trailing return).
proof fn lemma_norm_lines_elts(ls: Seq<Seq<char>>)
    requires
        forall|i: int| 0 <= i < ls.len() ==> #[trigger] no_newline(ls[i]),
    ensures
        forall|i: int|
            0 <= i < norm_lines(ls).len() ==> {
                &&& trim_spec(#[trigger] norm_lines(ls)[i]) == norm_lines(ls)[i]
                &&& kept_line(norm_lines(ls)[i])
                &&& line_shaped(norm_lines(ls)[i])
            },
    decreases ls.len(),
{
    if ls.len() == 0 {
    } else {
        assert forall|i: int| 0 <= i < ls.drop_last().len() implies #[trigger] no_newline(
            ls.drop_last()[i],
        ) by {
            assert(ls.drop_last()[i] == ls[i]);
        }
        lemma_norm_lines_elts(ls.drop_last());
        let l: Seq<char> = ls.last();
        let t: Seq<char> = trim_spec(l);
        if kept_line(t) {
            lemma_trim_idempotent(l);
            lemma_trim_shape(l);
            assert(no_newline(l));
            assert(line_shaped(t)) by {
                assert(t.len() >= 3);
                crate::text::lemma_leading_spaces(l);
                crate::text::lemma_trailing_spaces(l);
                assert(leading_spaces(l) < l.len());
                assert(t =~= l.subrange(leading_spaces(l), l.len() - trailing_spaces(l)));
                assert forall|k: int| 0 <= k < t.len() implies t[k] != '\n' by {
                    assert(t[k] == l[leading_spaces(l) + k]);
                }
                assert(!is_space(t.last()));
            }
            assert forall|i: int| 0 <= i < norm_lines(ls).len() implies {
                &&& trim_spec(#[trigger] norm_lines(ls)[i]) == norm_lines(ls)[i]
                &&& kept_line(norm_lines(ls)[i])
                &&& line_shaped(norm_lines(ls)[i])
            } by {
                if i < norm_lines(ls.drop_last()).len() {
                    assert(norm_lines(ls)[i] == norm_lines(ls.drop_last())[i]);
                } else {
                    assert(norm_lines(ls)[i] == t);
                }
            }
        } else {
            assert(norm_lines(ls) == norm_lines(ls.drop_last()));
        }
    }
}

/// Lines that are already trimmed and kept pass through the filter whole.
proof fn lemma_norm_lines_fixed(ls: Seq<Seq<char>>)
    requires
        forall|i: int|
            0 <= i < ls.len() ==> trim_spec(#[trigger] ls[i]) == ls[i] && kept_line(ls[i]),
    ensures
        norm_lines(ls) == ls,
    decreases ls.len(),
{
    if ls.len() == 0 {
        assert(norm_lines(ls) =~= ls);
    } else {
        assert forall|i: int| 0 <= i < ls.drop_last().len() implies trim_spec(
            #[trigger] ls.drop_last()[i],
        ) == ls.drop_last()[i] && kept_line(ls.drop_last()[i]) by {
            assert(ls.drop_last()[i] == ls[i]);
        }
        lemma_norm_lines_fixed(ls.drop_last());
        assert(trim_spec(ls.last()) == ls.last());
        assert(norm_lines(ls) =~= ls.drop_last().push(ls.last()));
        assert(ls.drop_last().push(ls.last()) =~= ls);
    }
}

/// The filter is idempotent: filtering already-filtered text changes
/// nothing.
pub proof fn lemma_filter_idempotent(t: Seq<char>)
    ensures
        filter_spec(filter_spec(t)) == filter_spec(t),
{
    let ns: Seq<Seq<char>> = norm_lines(lines_of(t));
    lemma_lines_of_no_newline(t);
    lemma_norm_lines_elts(lines_of(t));
    lemma_lines_of_join(ns);
    lemma_norm_lines_fixed(ns);
}

} // verus!
