//! The two phases of a path search and the choice between their results.

use vstd::prelude::*;
use vstd::string::StringExecFns;
use crate::aggregate::aggregate;
use crate::case::{case_permutations, case_permutations_of};
use crate::distinct::{contains_text, distinct, distinct_strings};
use crate::document::{all_hits, hit_count, keys, CandidateCounts, Document};
use crate::fuzzy::{filtered_list, fuzzy_filter};
use crate::rank::{paths_of, rank, ranked, Scored};
use crate::text::texts;
use crate::trigram::{trigrams, trigrams_of};

verus! {

/// The case permutations of every token, in the order of the tokens.
pub open spec fn expand_all(tokens: Seq<Seq<char>>) -> Seq<Seq<char>>
    decreases tokens.len(),
{
    if tokens.len() == 0 {
        Seq::empty()
    } else {
        expand_all(tokens.drop_last()) + case_permutations_of(tokens.last())
    }
}

/// The tokens that the fuzzy pass looks up: the case permutations of the
/// query's trigrams, each token once.
pub open spec fn tokens_of(q: Seq<char>) -> Seq<Seq<char>> {
    distinct(expand_all(trigrams_of(q)))
}

/// The candidates of a fuzzy pass with their counts, in the order of first
/// occurrence.
pub open spec fn tally_of(results: Seq<Vec<Document>>) -> Seq<Scored> {
    let found = distinct(all_hits(results));
    Seq::new(
        found.len(),
        |j: int| Scored { path: found[j].relative_path, count: hit_count(results, found[j]) },
    )
}

/// The ranked list of a fuzzy pass.
pub open spec fn ranked_list(results: Seq<Vec<Document>>) -> Seq<Seq<char>> {
    paths_of(ranked(tally_of(results)))
}

/// The relative paths of documents.
pub open spec fn relative_paths(docs: Seq<Document>) -> Seq<Seq<char>> {
    docs.map_values(|d: Document| d.relative_path@)
}

/// What a search returns: nothing for the empty query; the distinct paths
/// of the exact hits where there are any; else the filtered list of the
/// fuzzy pass.
pub open spec fn search_output(
    q: Seq<char>,
    exact: Seq<Document>,
    results: Seq<Vec<Document>>,
    limit: int,
) -> Seq<Seq<char>> {
    if q.len() == 0 {
        Seq::empty()
    } else if exact.len() > 0 {
        distinct(relative_paths(exact))
    } else {
        filtered_list(q, ranked_list(results), limit)
    }
}

/// Lines joined by a line feed.
pub open spec fn joined(lines: Seq<Seq<char>>) -> Seq<char>
    decreases lines.len(),
{
    if lines.len() == 0 {
        Seq::empty()
    } else if lines.len() == 1 {
        lines[0]
    } else {
        joined(lines.drop_last()) + seq!['\n'] + lines.last()
    }
}

/// Appends copies of `items` to `out`.
fn append_all(out: &mut Vec<String>, items: &Vec<String>)
    ensures
        texts(final(out)@) == texts(old(out)@) + texts(items@),
{
    let ghost start = texts(out@);
    let mut i: usize = 0;
    assert(texts(out@) =~= start + texts(items@).take(0));
    while i < items.len()
        invariant
            i <= items@.len(),
            texts(out@) == start + texts(items@).take(i as int),
        decreases items@.len() - i,
    {
        let ghost before = texts(out@);
        out.push(items[i].clone());
        assert(texts(out@) =~= before.push(items@[i as int]@));
        assert(texts(items@).take(i + 1) =~= texts(items@).take(i as int).push(items@[i as int]@));
        assert(texts(out@) =~= start + texts(items@).take(i + 1));
        i += 1;
    }
    assert(texts(items@).take(i as int) =~= texts(items@));
}

/// Lists the tokens that the fuzzy pass looks up for `query`.
pub fn fuzzy_tokens(query: &str) -> (tokens: Vec<String>)
    ensures
        texts(tokens@) == tokens_of(query@),
{
    let grams: Vec<String> = trigrams(query);
    let mut all: Vec<String> = Vec::new();
    let mut i: usize = 0;
    proof {
        assert(texts(grams@).take(0) =~= Seq::empty());
        assert(texts(all@) =~= Seq::empty());
    }
    while i < grams.len()
        invariant
            i <= grams@.len(),
            texts(all@) == expand_all(texts(grams@).take(i as int)),
        decreases grams@.len() - i,
    {
        let variants: Vec<String> = case_permutations(grams[i].as_str());
        proof {
            assert(texts(grams@).take(i + 1).drop_last() =~= texts(grams@).take(i as int));
            assert(texts(grams@).take(i + 1).last() == grams@[i as int]@);
        }
        append_all(&mut all, &variants);
        i += 1;
    }
    assert(texts(grams@).take(i as int) =~= texts(grams@));
    distinct_strings(&all)
}

/// The fuzzy phase after the lookups: counts the candidates over the
/// result sets, one set per token, ranks them and validates the ranked
/// paths against the fuzzy pattern of the query.
pub fn fuzzy_path_match(query: &str, token_hits: &Vec<Vec<Document>>, limit: usize) -> (out: Vec<
    String,
>)
    ensures
        texts(out@) == filtered_list(query@, ranked_list(token_hits@), limit as int),
{
    let tally: CandidateCounts = aggregate(token_hits);
    proof {
        assert(tally.scored() =~= tally_of(token_hits@)) by {
            assert forall|j: int| 0 <= j < tally.docs@.len() implies tally.scored()[j] == tally_of(
                token_hits@,
            )[j] by {
                assert(keys(tally.docs@)[j] == tally.docs@[j]@);
                assert(tally.counts@[j] == hit_count(token_hits@, tally.docs@[j]@));
            }
        }
    }
    let ranked_paths: Vec<String> = rank(&tally);
    fuzzy_filter(query, &ranked_paths, limit)
}

/// The exact phase after the lookup: the distinct paths of the hits, each
/// at the place of its first occurrence.
pub fn exact_paths(hits: &Vec<Document>) -> (paths: Vec<String>)
    ensures
        texts(paths@) == distinct(relative_paths(hits@)),
{
    let mut paths: Vec<String> = Vec::new();
    let mut i: usize = 0;
    proof {
        assert(relative_paths(hits@).take(0) =~= Seq::empty());
        assert(texts(paths@) =~= Seq::empty());
    }
    while i < hits.len()
        invariant
            i <= hits@.len(),
            texts(paths@) == distinct(relative_paths(hits@).take(i as int)),
        decreases hits@.len() - i,
    {
        let ghost before = texts(paths@);
        proof {
            assert(relative_paths(hits@).take(i + 1).drop_last() =~= relative_paths(hits@).take(
                i as int,
            ));
            assert(relative_paths(hits@).take(i + 1).last() == hits@[i as int].relative_path@);
        }
        if !contains_text(&paths, &hits[i].relative_path) {
            paths.push(hits[i].relative_path.clone());
            assert(texts(paths@) =~= before.push(hits@[i as int].relative_path@));
        }
        i += 1;
    }
    assert(relative_paths(hits@).take(i as int) =~= relative_paths(hits@));
    paths
}

/// Chooses what a search returns, from the hits of the exact lookup and
/// the result sets of the fuzzy pass: the exact paths where there are any,
/// else the filtered list of the fuzzy pass cut at `limit`. Both phases
/// are computed. The empty query returns nothing.
pub fn path_search(
    query: &str,
    exact_hits: &Vec<Document>,
    token_hits: &Vec<Vec<Document>>,
    limit: usize,
) -> (out: Vec<String>)
    ensures
        texts(out@) == search_output(query@, exact_hits@, token_hits@, limit as int),
{
    let exact: Vec<String> = exact_paths(exact_hits);
    let fuzzy: Vec<String> = fuzzy_path_match(query, token_hits, limit);
    if query.unicode_len() == 0 {
        let out: Vec<String> = Vec::new();
        assert(texts(out@) =~= Seq::empty());
        out
    } else if exact_hits.len() > 0 {
        exact
    } else {
        fuzzy
    }
}

/// Joins the paths into one text, one path per line.
pub fn join_lines(paths: &Vec<String>) -> (text: String)
    ensures
        text@ == joined(texts(paths@)),
{
    let mut text: String = String::new();
    let mut i: usize = 0;
    assert(texts(paths@).take(0) =~= Seq::empty());
    while i < paths.len()
        invariant
            i <= paths@.len(),
            text@ == joined(texts(paths@).take(i as int)),
        decreases paths@.len() - i,
    {
        let ghost before = text@;
        proof {
            assert(texts(paths@).take(i + 1).drop_last() =~= texts(paths@).take(i as int));
            assert(texts(paths@).take(i + 1).last() == paths@[i as int]@);
            assert(texts(paths@).take(i + 1)[0] == texts(paths@)[0]);
        }
        if i > 0 {
            text.push('\n');
        }
        text.append(paths[i].as_str());
        assert(text@ =~= if i > 0 {
            before + seq!['\n'] + paths@[i as int]@
        } else {
            paths@[i as int]@
        });
        i += 1;
    }
    assert(texts(paths@).take(i as int) =~= texts(paths@));
    text
}

} // verus!
