//! The content extractor: resolves a CSS selector against a parsed HTML
//! document and returns the normalized visible text of the matched
//! elements.

use vstd::prelude::*;

use crate::text::{chars_vec, join_nl, lemma_lines_deep_view, lemma_strings_view, trim_chars,
    trim_spec};

verus! {

/// Whether scraper's CSS selector parser accepts the string.
pub uninterp spec fn selector_ok(sel: Seq<char>) -> bool;

/// What scraper finds for a document and a selector: for each matched
/// element, in document order, the raw text of its descendant text nodes in
/// tree order. Parsing is deterministic, so the result is a function of the
/// two strings alone.
pub uninterp spec fn fragments_of(html: Seq<char>, sel: Seq<char>) -> Seq<Seq<Seq<char>>>;

/// Relies on scraper: `Selector::parse` accepts or rejects the selector,
/// `Html::parse_document` parses best-effort without failing, and the
/// select and descendant iterators walk matches in document order.
#[verifier::external_body]
fn select_fragments(html: &str, selector: &str) -> (r: Option<Vec<Vec<String>>>)
    ensures
        r is Some <==> selector_ok(selector@),
        r is Some ==> r.unwrap().deep_view() == fragments_of(html@, selector@),
{
    let sel = scraper::Selector::parse(selector).ok()?;
    let doc = scraper::Html::parse_document(html);
    let mut out = Vec::new();
    for element in doc.select(&sel) {
        let mut parts = Vec::new();
        for node in element.descendants() {
            if let Some(t) = node.value().as_text() {
                parts.push(t.to_string());
            }
        }
        out.push(parts);
    }
    Some(out)
}

/// Why extraction failed.
#[derive(Debug, Clone, Copy, PartialEq, Eq, Structural)]
pub enum ExtractError {
    /// The selector string does not parse as valid CSS.
    InvalidSelector,
}

/// An element's fragments trimmed, with the whitespace-only ones dropped.
pub open spec fn trimmed_fragments(fs: Seq<Seq<char>>) -> Seq<Seq<char>>
    decreases fs.len(),
{
    if fs.len() == 0 {
        Seq::empty()
    } else {
        let prior = trimmed_fragments(fs.drop_last());
        let t = trim_spec(fs.last());
        if t.len() > 0 {
            prior.push(t)
        } else {
            prior
        }
    }
}

/// Fragments joined with single spaces.
pub open spec fn join_sp(ls: Seq<Seq<char>>) -> Seq<char>
    decreases ls.len(),
{
    if ls.len() == 0 {
        Seq::empty()
    } else if ls.len() == 1 {
        ls[0]
    } else {
        ls[0] + seq![' '] + join_sp(ls.drop_first())
    }
}

proof fn lemma_join_sp_push(ls: Seq<Seq<char>>, l: Seq<char>)
    ensures
        ls.len() == 0 ==> join_sp(ls.push(l)) == l,
        ls.len() > 0 ==> join_sp(ls.push(l)) == join_sp(ls) + seq![' '] + l,
    decreases ls.len(),
{
    if ls.len() == 0 {
        assert(ls.push(l)[0] == l);
        assert(join_sp(ls.push(l)) == l);
    } else if ls.len() == 1 {
        assert(ls.push(l)[0] == ls[0]);
        assert(ls.push(l).drop_first() =~= seq![l]);
        assert(join_sp(seq![l]) == seq![l][0]);
        assert(seq![l][0] == l);
        assert(join_sp(ls.push(l)) == ls[0] + seq![' '] + l);
        assert(join_sp(ls) == ls[0]);
    } else {
        lemma_join_sp_push(ls.drop_first(), l);
        assert(ls.push(l).drop_first() =~= ls.drop_first().push(l));
        assert(join_sp(ls.push(l)) == ls[0] + seq![' '] + join_sp(ls.drop_first().push(l)));
        assert(join_sp(ls) + seq![' '] + l =~= ls[0] + seq![' '] + (join_sp(ls.drop_first())
            + seq![' '] + l));
    }
}

/// One matched element's text: its text-node fragments trimmed, the
/// whitespace-only ones dropped, the rest joined with single spaces.
pub open spec fn element_text(fs: Seq<Seq<char>>) -> Seq<char> {
    join_sp(trimmed_fragments(fs))
}

/// The element texts that are non-empty, in document order.
pub open spec fn nonempty_texts(els: Seq<Seq<Seq<char>>>) -> Seq<Seq<char>>
    decreases els.len(),
{
    if els.len() == 0 {
        Seq::empty()
    } else {
        let prior = nonempty_texts(els.drop_last());
        let t = element_text(els.last());
        if t.len() > 0 {
            prior.push(t)
        } else {
            prior
        }
    }
}

/// The extracted text of the whole selection: each element's text, empty
/// ones dropped, joined with newlines in document order.
pub open spec fn extract_spec(els: Seq<Seq<Seq<char>>>) -> Seq<char> {
    join_nl(nonempty_texts(els))
}

/// The selector a record resolves to: its own, or the page body.
pub open spec fn effective_selector(css_selector: Option<Seq<char>>) -> Seq<char> {
    match css_selector {
        Some(s) => s,
        None => "body"@,
    }
}

/// Fragments joined with single spaces, at the character level.
fn join_sp_chars(ls: &Vec<Vec<char>>) -> (r: Vec<char>)
    ensures
        r@ == join_sp(ls.deep_view()),
{
    let mut out: Vec<char> = Vec::new();
    let m: usize = ls.len();
    let mut j: usize = 0;
    while j < m
        invariant
            m == ls@.len(),
            j <= m,
            out@ == join_sp(ls.deep_view().take(j as int)),
        decreases m - j,
    {
        proof {
            lemma_lines_deep_view(ls);
        }
        if j > 0 {
            out.push(' ');
        }
        let ghost mid: Seq<char> = out@;
        let piece = &ls[j];
        let k_max: usize = piece.len();
        let mut k: usize = 0;
        while k < k_max
            invariant
                k_max == piece@.len(),
                k <= k_max,
                out@ =~= mid + piece@.take(k as int),
            decreases k_max - k,
        {
            out.push(piece[k]);
            k += 1;
            proof {
                assert(out@ =~= mid + piece@.take(k as int));
            }
        }
        proof {
            let prefix: Seq<Seq<char>> = ls.deep_view().take(j as int);
            let now: Seq<Seq<char>> = ls.deep_view().take(j as int + 1);
            lemma_join_sp_push(prefix, ls.deep_view()[j as int]);
            assert(now =~= prefix.push(ls.deep_view()[j as int]));
            assert(piece@.take(k_max as int) =~= ls.deep_view()[j as int]);
            if j == 0 {
                assert(out@ =~= join_sp(now));
            } else {
                assert(out@ =~= join_sp(prefix) + seq![' '] + ls.deep_view()[j as int]);
                assert(out@ =~= join_sp(now));
            }
        }
        j += 1;
    }
    proof {
        assert(ls.deep_view().take(m as int) =~= ls.deep_view());
    }
    out
}

/// The text of one element, from its raw text-node fragments.
fn element_chars(fragments: &Vec<String>) -> (r: Vec<char>)
    ensures
        r@ == element_text(fragments.deep_view()),
{
    let n: usize = fragments.len();
    let mut tnf: Vec<Vec<char>> = Vec::new();
    let mut i: usize = 0;
    while i < n
        invariant
            n == fragments@.len(),
            i <= n,
            tnf.deep_view() == trimmed_fragments(fragments.deep_view().take(i as int)),
        decreases n - i,
    {
        proof {
            lemma_strings_view(fragments);
            let taken: Seq<Seq<char>> = fragments.deep_view().take(i as int + 1);
            assert(taken.drop_last() =~= fragments.deep_view().take(i as int));
            assert(taken.last() == fragments.deep_view()[i as int]);
        }
        let ghost before: Seq<Seq<char>> = tnf.deep_view();
        let cv = chars_vec(fragments[i].as_str());
        let t = trim_chars(&cv);
        if t.len() > 0 {
            tnf.push(t);
            proof {
                lemma_lines_deep_view(&tnf);
                assert(tnf.deep_view() =~= before.push(trim_spec(fragments@[i as int]@)));
            }
        }
        i += 1;
    }
    proof {
        assert(fragments.deep_view().take(n as int) =~= fragments.deep_view());
    }
    join_sp_chars(&tnf)
}

/// The element columns of a selection, indexed down to their views.
proof fn lemma_selection_view(els: &Vec<Vec<String>>)
    ensures
        els.deep_view().len() == els@.len(),
        forall|i: int| 0 <= i < els@.len() ==> els.deep_view()[i] == els@[i].deep_view(),
{
}

/// Parses `html` best-effort, resolves the selector (the page body when
/// absent), and returns the matched elements' visible text: each element's
/// text-node fragments trimmed and joined with single spaces, the elements
/// joined with newlines in document order. No matched element yields the
/// empty string, not an error; an unparseable selector is the one failure.
pub fn extract_content(html: &str, css_selector: Option<&str>) -> (r: Result<String, ExtractError>)
    ensures
        ({
            let sel = effective_selector(match css_selector {
                Some(s) => Some(s@),
                None => None,
            });
            &&& r is Ok <==> selector_ok(sel)
            &&& r is Ok ==> r.unwrap()@ == extract_spec(fragments_of(html@, sel))
            &&& r is Err ==> r.unwrap_err() == ExtractError::InvalidSelector
        }),
{
    let sel: &str = match css_selector {
        Some(s) => s,
        None => "body",
    };
    let found = select_fragments(html, sel);
    match found {
        None => Err(ExtractError::InvalidSelector),
        Some(els) => {
            let n: usize = els.len();
            let mut texts: Vec<Vec<char>> = Vec::new();
            let mut i: usize = 0;
            while i < n
                invariant
                    n == els@.len(),
                    i <= n,
                    texts.deep_view() == nonempty_texts(els.deep_view().take(i as int)),
                decreases n - i,
            {
                proof {
                    lemma_selection_view(&els);
                    let taken: Seq<Seq<Seq<char>>> = els.deep_view().take(i as int + 1);
                    assert(taken.drop_last() =~= els.deep_view().take(i as int));
                    assert(taken.last() == els.deep_view()[i as int]);
                }
                let ghost before: Seq<Seq<char>> = texts.deep_view();
                let t = element_chars(&els[i]);
                if t.len() > 0 {
                    texts.push(t);
                    proof {
                        lemma_lines_deep_view(&texts);
                        assert(texts.deep_view() =~= before.push(element_text(
                            els@[i as int].deep_view(),
                        )));
                    }
                }
                i += 1;
            }
            proof {
                assert(els.deep_view().take(n as int) =~= els.deep_view());
            }
            Ok(crate::filter::join_lines(&texts))
        },
    }
}

} // verus!
