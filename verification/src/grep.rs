use vstd::prelude::*;

use crate::text::contains_seq;
use crate::text::is_subsequence_of;
use crate::text::lemma_filter_all;
use crate::text::lemma_filter_is_subsequence;
use crate::text::lemma_filter_none;
use crate::text::lemma_filter_refine;
use crate::text::line_seqs;
use crate::text::match_at;
use crate::text::contains_str;
use crate::text::split_lines;

verus! {

/// The lowercase form of a text, as `str::to_lowercase` computes it.
pub uninterp spec fn lower_of(s: Seq<char>) -> Seq<char>;

/// Relies on str::to_lowercase: the result is the Unicode lowercase form of
/// the input and depends on the input's characters alone; the empty string
/// stays empty.
#[verifier::external_body]
fn to_lowercase(s: &str) -> (r: String)
    ensures
        r@ == lower_of(s@),
        s@.len() == 0 ==> r@.len() == 0,
{
    s.to_lowercase()
}

/// Whether one line is kept for a query: under the case-sensitive policy the
/// line must contain the query as given; under the case-insensitive policy
/// the lowercase form of the line must contain the lowercase form of the
/// query.
pub open spec fn line_matches(line: Seq<char>, query: Seq<char>, case_sensitive: bool) -> bool {
    if case_sensitive {
        contains_seq(line, query)
    } else {
        contains_seq(lower_of(line), lower_of(query))
    }
}

/// `line_matches` for a fixed query and policy, as a predicate on lines.
pub open spec fn match_pred(query: Seq<char>, case_sensitive: bool) -> spec_fn(Seq<char>) -> bool {
    |l: Seq<char>| line_matches(l, query, case_sensitive)
}

/// The lines of `source` that match `query` under the chosen policy, in
/// source order.
pub open spec fn filtered_lines(
    source: Seq<char>,
    query: Seq<char>,
    case_sensitive: bool,
) -> Seq<Seq<char>> {
    line_seqs(source).filter(match_pred(query, case_sensitive))
}

/// Every line of `contents` containing `query` exactly, in source order.
/// An empty query matches every line.
pub fn search_case_sensitive<'a>(query: &str, contents: &'a str) -> (r: Vec<&'a str>)
    ensures
        r.deep_view() == filtered_lines(contents@, query@, true),
        query@.len() == 0 ==> r.deep_view() == line_seqs(contents@),
{
    let lines = split_lines(contents);
    let ghost pred = match_pred(query@, true);
    let mut out: Vec<&'a str> = Vec::new();
    let mut idx: usize = 0;
    proof {
        assert(lines.deep_view().take(0) =~= Seq::<Seq<char>>::empty());
        reveal(Seq::filter);
    }
    while idx < lines.len()
        invariant
            lines.deep_view() == line_seqs(contents@),
            idx <= lines@.len(),
            lines.deep_view().len() == lines@.len(),
            pred == match_pred(query@, true),
            out.deep_view() == lines.deep_view().take(idx as int).filter(pred),
        decreases lines@.len() - idx,
    {
        let line = lines[idx];
        let ghost prev = out.deep_view();
        let kept = contains_str(line, query);
        if kept {
            out.push(line);
        }
        proof {
            let lv = lines.deep_view();
            reveal(Seq::filter);
            assert(lv.take(idx + 1).drop_last() =~= lv.take(idx as int));
            assert(lv.take(idx + 1).last() == lv[idx as int]);
            assert(pred(lv[idx as int]) == kept);
            if kept {
                assert(out.deep_view() =~= prev.push(line@));
            }
            assert(out.deep_view() =~= lv.take(idx + 1).filter(pred));
        }
        idx = idx + 1;
    }
    proof {
        assert(lines.deep_view().take(lines@.len() as int) =~= lines.deep_view());
        if query@.len() == 0 {
            let lv = lines.deep_view();
            assert forall|i: int| 0 <= i < lv.len() implies pred(lv[i]) by {
                assert(lv[i].subrange(0, 0) =~= query@);
                assert(match_at(lv[i], query@, 0));
            }
            lemma_filter_all(lv, pred);
        }
    }
    out
}

/// Every line of `contents` whose lowercase form contains the lowercase form
/// of `query`, in source order; the lines come back in their original
/// spelling, never the lowercase form. An empty query matches every line.
pub fn search_case_insensitive<'a>(query: &str, contents: &'a str) -> (r: Vec<&'a str>)
    ensures
        r.deep_view() == filtered_lines(contents@, query@, false),
        query@.len() == 0 ==> r.deep_view() == line_seqs(contents@),
{
    let lowered_query = to_lowercase(query);
    let lines = split_lines(contents);
    let ghost pred = match_pred(query@, false);
    let mut out: Vec<&'a str> = Vec::new();
    let mut idx: usize = 0;
    proof {
        assert(lines.deep_view().take(0) =~= Seq::<Seq<char>>::empty());
        reveal(Seq::filter);
    }
    while idx < lines.len()
        invariant
            lines.deep_view() == line_seqs(contents@),
            idx <= lines@.len(),
            lines.deep_view().len() == lines@.len(),
            pred == match_pred(query@, false),
            lowered_query@ == lower_of(query@),
            out.deep_view() == lines.deep_view().take(idx as int).filter(pred),
        decreases lines@.len() - idx,
    {
        let line = lines[idx];
        let ghost prev = out.deep_view();
        let lowered_line = to_lowercase(line);
        let kept = contains_str(lowered_line.as_str(), lowered_query.as_str());
        if kept {
            out.push(line);
        }
        proof {
            let lv = lines.deep_view();
            reveal(Seq::filter);
            assert(lv.take(idx + 1).drop_last() =~= lv.take(idx as int));
            assert(lv.take(idx + 1).last() == lv[idx as int]);
            assert(pred(lv[idx as int]) == kept);
            if kept {
                assert(out.deep_view() =~= prev.push(line@));
            }
            assert(out.deep_view() =~= lv.take(idx + 1).filter(pred));
        }
        idx = idx + 1;
    }
    proof {
        assert(lines.deep_view().take(lines@.len() as int) =~= lines.deep_view());
        if query@.len() == 0 {
            let lv = lines.deep_view();
            assert forall|i: int| 0 <= i < lv.len() implies pred(lv[i]) by {
                assert(lower_of(lv[i]).subrange(0, 0) =~= lower_of(query@));
                assert(match_at(lower_of(lv[i]), lower_of(query@), 0));
            }
            lemma_filter_all(lv, pred);
        }
    }
    out
}

/// The filtering step of the search driver: picks the search that the case
/// policy calls for and returns its result.
pub fn filter_lines<'a>(query: &str, contents: &'a str, case_sensitive: bool) -> (r: Vec<
    &'a str,
>)
    ensures
        r.deep_view() == filtered_lines(contents@, query@, case_sensitive),
        query@.len() == 0 ==> r.deep_view() == line_seqs(contents@),
{
    if case_sensitive {
        search_case_sensitive(query, contents)
    } else {
        search_case_insensitive(query, contents)
    }
}

/// Order preservation: under either case policy the result is an
/// order-preserving subsequence of the source's lines — no line is
/// reordered, and none is duplicated beyond what the source itself holds.
pub proof fn lemma_order_preservation(source: Seq<char>, query: Seq<char>, case_sensitive: bool)
    ensures
        is_subsequence_of(filtered_lines(source, query, case_sensitive), line_seqs(source)),
{
    lemma_filter_is_subsequence(line_seqs(source), match_pred(query, case_sensitive));
}

/// Lowercasing preserves containment of `query`: every text containing it
/// still contains it once both are lowercased. This holds of ASCII text,
/// where lowercasing maps character to character, but not of every Unicode
/// string, since the lowercase form of a character may depend on its
/// position in the text.
pub open spec fn lowering_preserves_containment(query: Seq<char>) -> bool {
    forall|l: Seq<char>| #[trigger] contains_seq(l, query) ==> contains_seq(
        lower_of(l),
        lower_of(query),
    )
}

/// Case sensitivity correctness: whenever lowercasing preserves containment
/// of the query, the case-sensitive result is exactly the case-insensitive
/// result filtered again by exact containment — in particular an
/// order-preserving subsequence of it, so case-insensitive matching is the
/// more permissive policy.
pub proof fn lemma_case_sensitive_within_insensitive(source: Seq<char>, query: Seq<char>)
    ensures
        lowering_preserves_containment(query) ==> filtered_lines(source, query, true)
            == filtered_lines(source, query, false).filter(match_pred(query, true)),
        lowering_preserves_containment(query) ==> is_subsequence_of(
            filtered_lines(source, query, true),
            filtered_lines(source, query, false),
        ),
{
    if lowering_preserves_containment(query) {
        assert forall|x: Seq<char>| #[trigger] match_pred(query, true)(x) implies match_pred(
            query,
            false,
        )(x) by {
            assert(contains_seq(x, query));
        }
        lemma_filter_refine(line_seqs(source), match_pred(query, true), match_pred(query, false));
        lemma_filter_is_subsequence(filtered_lines(source, query, false), match_pred(query, true));
    }
}

/// No-match totality: a query that no line of the source matches under the
/// active policy yields the empty result — an answer, not a failure.
pub proof fn lemma_no_match_yields_empty(source: Seq<char>, query: Seq<char>, case_sensitive: bool)
    ensures
        (forall|i: int|
            0 <= i < line_seqs(source).len() ==> !line_matches(
                #[trigger] line_seqs(source)[i],
                query,
                case_sensitive,
            )) ==> filtered_lines(source, query, case_sensitive) == Seq::<Seq<char>>::empty(),
{
    if (forall|i: int|
        0 <= i < line_seqs(source).len() ==> !line_matches(
            #[trigger] line_seqs(source)[i],
            query,
            case_sensitive,
        )) {
        let pred = match_pred(query, case_sensitive);
        assert(forall|i: int| 0 <= i < line_seqs(source).len() ==> !pred(
            #[trigger] line_seqs(source)[i],
        ));
        lemma_filter_none(line_seqs(source), pred);
    }
}

/// Idempotence: filtering is a pure function of source, query and policy.
/// The search postconditions pin the result to `filtered_lines`, so any two
/// results they admit for identical inputs — in particular the results of
/// two successive calls — are equal.
pub proof fn lemma_search_deterministic(
    source: Seq<char>,
    query: Seq<char>,
    case_sensitive: bool,
    r1: Seq<Seq<char>>,
    r2: Seq<Seq<char>>,
)
    requires
        r1 == filtered_lines(source, query, case_sensitive),
        r2 == filtered_lines(source, query, case_sensitive),
    ensures
        r1 == r2,
{
}

} // verus!
