//! The differencer: a human-readable additive/subtractive delta between two
//! normalized text blobs, compared line by line as sets.

use vstd::prelude::*;
use vstd::string::StringExecFns;

use crate::text::{
    chars_vec, contains_line, lemma_lines_deep_view, lines_of, split_lines, string_of_chars,
};

verus! {

/// Lines of `xs` that appear nowhere in `ys`; order of `xs` preserved.
/// Membership, not position: a reordered line is not reported.
pub open spec fn missing_lines(xs: Seq<Seq<char>>, ys: Seq<Seq<char>>) -> Seq<Seq<char>>
    decreases xs.len(),
{
    if xs.len() == 0 {
        Seq::empty()
    } else {
        let prior = missing_lines(xs.drop_last(), ys);
        if ys.contains(xs.last()) {
            prior
        } else {
            prior.push(xs.last())
        }
    }
}

/// At most the first ten entries: the report is a lossy summary.
pub open spec fn cap_ten(ls: Seq<Seq<char>>) -> Seq<Seq<char>> {
    if ls.len() <= 10 {
        ls
    } else {
        ls.take(10)
    }
}

pub open spec fn removed_header() -> Seq<char> {
    "Removed:\n"@
}

pub open spec fn added_header() -> Seq<char> {
    "Added:\n"@
}

pub open spec fn removed_prefix() -> Seq<char> {
    "- "@
}

pub open spec fn added_prefix() -> Seq<char> {
    "+ "@
}

/// Fixed text returned when the line sets are equal: the caller only asks
/// for a diff after a hash mismatch, so an empty report must still say that
/// something changed.
pub open spec fn structural_change_note() -> Seq<char> {
    "Content structure changed (check the site for details)"@
}

/// One prefixed line per entry, each terminated by a newline.
pub open spec fn bullet_list(ls: Seq<Seq<char>>, pre: Seq<char>) -> Seq<char>
    decreases ls.len(),
{
    if ls.len() == 0 {
        Seq::empty()
    } else {
        bullet_list(ls.drop_last(), pre) + pre + ls.last() + seq!['\n']
    }
}

/// The full report: a "Removed:" section, then an "Added:" section, each
/// omitted when empty and listing at most its first ten lines; the fixed
/// structural note when both are empty.
pub open spec fn diff_spec(old: Seq<char>, new: Seq<char>) -> Seq<char> {
    let ol = lines_of(old);
    let nl = lines_of(new);
    let removed = missing_lines(ol, nl);
    let added = missing_lines(nl, ol);
    if removed.len() == 0 && added.len() == 0 {
        structural_change_note()
    } else {
        (if removed.len() > 0 {
            removed_header() + bullet_list(cap_ten(removed), removed_prefix())
        } else {
            Seq::empty()
        }) + (if added.len() > 0 {
            added_header() + bullet_list(cap_ten(added), added_prefix())
        } else {
            Seq::empty()
        })
    }
}

/// The lines of `xs` that occur nowhere in `ys`.
fn collect_missing(xs: &Vec<Vec<char>>, ys: &Vec<Vec<char>>) -> (r: Vec<Vec<char>>)
    ensures
        r.deep_view() == missing_lines(xs.deep_view(), ys.deep_view()),
{
    let n: usize = xs.len();
    let mut r: Vec<Vec<char>> = Vec::new();
    let mut i: usize = 0;
    while i < n
        invariant
            n == xs@.len(),
            i <= n,
            r.deep_view() == missing_lines(xs.deep_view().take(i as int), ys.deep_view()),
        decreases n - i,
    {
        proof {
            lemma_lines_deep_view(xs);
            let taken: Seq<Seq<char>> = xs.deep_view().take(i as int + 1);
            assert(taken.drop_last() =~= xs.deep_view().take(i as int));
            assert(taken.last() == xs.deep_view()[i as int]);
        }
        let ghost before: Seq<Seq<char>> = r.deep_view();
        let present = contains_line(ys, &xs[i]);
        if !present {
            let line = clone_line(&xs[i]);
            r.push(line);
            proof {
                lemma_lines_deep_view(&r);
                assert(r.deep_view() =~= before.push(xs.deep_view()[i as int]));
            }
        }
        i += 1;
    }
    proof {
        assert(xs.deep_view().take(n as int) =~= xs.deep_view());
    }
    r
}

/// A copy of a line, character for character.
fn clone_line(l: &Vec<char>) -> (r: Vec<char>)
    ensures
        r@ == l@,
{
    let n: usize = l.len();
    let mut r: Vec<char> = Vec::new();
    let mut i: usize = 0;
    while i < n
        invariant
            n == l@.len(),
            i <= n,
            r@ =~= l@.take(i as int),
        decreases n - i,
    {
        r.push(l[i]);
        i += 1;
        proof {
            assert(r@ =~= l@.take(i as int));
        }
    }
    proof {
        assert(l@.take(n as int) =~= l@);
    }
    r
}

/// Appends `pre`-prefixed lines for at most the first ten entries of `ls`.
fn append_bullets(out: &mut String, ls: &Vec<Vec<char>>, pre: &str)
    ensures
        final(out)@ == old(out)@ + bullet_list(cap_ten(ls.deep_view()), pre@),
{
    let cap: usize = if ls.len() < 10 {
        ls.len()
    } else {
        10
    };
    let ghost capped: Seq<Seq<char>> = cap_ten(ls.deep_view());
    proof {
        lemma_lines_deep_view(ls);
        assert(capped =~= ls.deep_view().take(cap as int));
    }
    let ghost base: Seq<char> = out@;
    let mut i: usize = 0;
    while i < cap
        invariant
            cap <= ls@.len(),
            i <= cap,
            capped == ls.deep_view().take(cap as int),
            out@ == base + bullet_list(capped.take(i as int), pre@),
        decreases cap - i,
    {
        proof {
            lemma_lines_deep_view(ls);
            let taken: Seq<Seq<char>> = capped.take(i as int + 1);
            assert(taken.drop_last() =~= capped.take(i as int));
            assert(taken.last() == ls.deep_view()[i as int]);
        }
        out.append(pre);
        let piece = string_of_chars(&ls[i]);
        out.append(piece.as_str());
        crate::text::push_char(out, '\n');
        i += 1;
        proof {
            assert(out@ =~= base + bullet_list(capped.take(i as int), pre@));
        }
    }
    proof {
        assert(capped.take(cap as int) =~= capped);
    }
}

/// Computes the textual change report between two normalized text blobs.
/// `added` lines are in `new` but nowhere in `old`; `removed` lines are in
/// `old` but nowhere in `new`.
pub fn compute_diff(old_content: &str, new_content: &str) -> (r: String)
    ensures
        r@ == diff_spec(old_content@, new_content@),
{
    let ov = chars_vec(old_content);
    let nv = chars_vec(new_content);
    let ol = split_lines(&ov);
    let nl = split_lines(&nv);
    let removed = collect_missing(&ol, &nl);
    let added = collect_missing(&nl, &ol);
    if removed.len() == 0 && added.len() == 0 {
        let r = String::from_str("Content structure changed (check the site for details)");
        return r;
    }
    let mut out = String::new();
    if removed.len() > 0 {
        out.append("Removed:\n");
        append_bullets(&mut out, &removed, "- ");
    }
    if added.len() > 0 {
        out.append("Added:\n");
        append_bullets(&mut out, &added, "+ ");
    }
    proof {
        assert(out@ =~= diff_spec(old_content@, new_content@));
    }
    out
}

} // verus!
