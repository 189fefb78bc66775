//! What holds of a search as a whole.

use vstd::prelude::*;
use crate::case::lemma_trigram_expansion_bounded;
use crate::distinct::lemma_distinct_len;
use crate::document::{all_hits, hit_count, keys, Document, DocumentKey};
use crate::fuzzy::filtered_list;
use crate::pipeline::{
    expand_all, ranked_list, relative_paths, search_output, tally_of, tokens_of,
};
use crate::trigram::trigrams_of;

verus! {

/// Tokens of at most three characters expand to at most eight tokens each.
pub proof fn lemma_expansion_bounded(tokens: Seq<Seq<char>>)
    requires
        forall|i: int| 0 <= i < tokens.len() ==> (#[trigger] tokens[i]).len() <= 3,
    ensures
        expand_all(tokens).len() <= 8 * tokens.len(),
    decreases tokens.len(),
{
    if tokens.len() > 0 {
        assert forall|i: int| 0 <= i < tokens.len() - 1 implies (#[trigger] tokens.drop_last()[i]).len()
            <= 3 by {
            assert(tokens.drop_last()[i] == tokens[i]);
        }
        lemma_expansion_bounded(tokens.drop_last());
        assert(tokens.last() == tokens[tokens.len() - 1]);
        lemma_trigram_expansion_bounded(tokens.last());
    }
}

/// The fan-out of a fuzzy pass is bounded: it looks up at most eight
/// tokens for every trigram of the query.
pub proof fn lemma_fan_out_bounded(q: Seq<char>)
    ensures
        tokens_of(q).len() <= 8 * trigrams_of(q).len(),
{
    lemma_expansion_bounded(trigrams_of(q));
    lemma_distinct_len(expand_all(trigrams_of(q)));
}

/// Two runs got the same documents for every token.
pub open spec fn same_replies(a: Seq<Vec<Document>>, b: Seq<Vec<Document>>) -> bool {
    &&& a.len() == b.len()
    &&& forall|i: int| 0 <= i < a.len() ==> keys(#[trigger] a[i]@) == keys(b[i]@)
}

/// The same replies give the same hits and the same counts.
pub proof fn lemma_same_replies_same_counts(a: Seq<Vec<Document>>, b: Seq<Vec<Document>>)
    requires
        same_replies(a, b),
    ensures
        all_hits(a) == all_hits(b),
        forall|key: DocumentKey| hit_count(a, key) == hit_count(b, key),
        tally_of(a) == tally_of(b),
    decreases a.len(),
{
    if a.len() > 0 {
        assert(keys(a.last()@) == keys(b.last()@)) by {
            assert(a.last() == a[a.len() - 1]);
        }
        assert(same_replies(a.drop_last(), b.drop_last())) by {
            assert forall|i: int| 0 <= i < a.drop_last().len() implies keys(
                #[trigger] a.drop_last()[i]@,
            ) == keys(b.drop_last()[i]@) by {
                assert(a.drop_last()[i] == a[i]);
            }
        }
        lemma_same_replies_same_counts(a.drop_last(), b.drop_last());
    }
    assert forall|key: DocumentKey| hit_count(a, key) == hit_count(b, key) by {
        if a.len() > 0 {
            assert(hit_count(a.drop_last(), key) == hit_count(b.drop_last(), key));
        }
    }
    assert(tally_of(a) =~= tally_of(b));
}

/// A search is repeatable: two runs that get the same documents from the
/// index, for the exact lookup and for every token, return the same list.
pub proof fn lemma_search_repeatable(
    q: Seq<char>,
    exact_a: Seq<Document>,
    exact_b: Seq<Document>,
    results_a: Seq<Vec<Document>>,
    results_b: Seq<Vec<Document>>,
    limit: int,
)
    requires
        keys(exact_a) == keys(exact_b),
        same_replies(results_a, results_b),
    ensures
        ranked_list(results_a) == ranked_list(results_b),
        search_output(q, exact_a, results_a, limit) == search_output(
            q,
            exact_b,
            results_b,
            limit,
        ),
{
    lemma_same_replies_same_counts(results_a, results_b);
    assert(relative_paths(exact_a) =~= relative_paths(exact_b)) by {
        assert(keys(exact_a).len() == keys(exact_b).len());
        assert(keys(exact_a).len() == exact_a.len());
        assert(keys(exact_b).len() == exact_b.len());
        assert forall|i: int| 0 <= i < exact_a.len() implies relative_paths(exact_a)[i]
            == relative_paths(exact_b)[i] by {
            assert(keys(exact_a)[i] == exact_a[i]@);
            assert(keys(exact_b)[i] == exact_b[i]@);
        }
    }
}

/// A result set without hits changes neither the hits nor any count.
pub proof fn lemma_empty_set_counts_nothing(results: Seq<Vec<Document>>, i: int)
    requires
        0 <= i < results.len(),
        results[i]@.len() == 0,
    ensures
        all_hits(results) == all_hits(results.remove(i)),
        forall|key: DocumentKey| hit_count(results, key) == hit_count(results.remove(i), key),
    decreases results.len(),
{
    if i == results.len() - 1 {
        assert(results.remove(i) =~= results.drop_last());
        assert(keys(results.last()@) =~= Seq::empty());
        assert(all_hits(results) =~= all_hits(results.drop_last()));
    } else {
        assert(results.remove(i).drop_last() =~= results.drop_last().remove(i));
        assert(results.remove(i).last() == results.last());
        lemma_empty_set_counts_nothing(results.drop_last(), i);
    }
    assert forall|key: DocumentKey| hit_count(results, key) == hit_count(
        results.remove(i),
        key,
    ) by {
        if i < results.len() - 1 {
            assert(hit_count(results.drop_last(), key) == hit_count(
                results.drop_last().remove(i),
                key,
            ));
        }
    }
}

/// A lookup that failed degrades to no hits, and a token without hits
/// might as well have been left out: the ranked list and every filtered
/// list are those of the other tokens alone.
pub proof fn lemma_failed_lookup_omitted(
    results: Seq<Vec<Document>>,
    i: int,
    q: Seq<char>,
    limit: int,
)
    requires
        0 <= i < results.len(),
        results[i]@.len() == 0,
    ensures
        ranked_list(results) == ranked_list(results.remove(i)),
        filtered_list(q, ranked_list(results), limit) == filtered_list(
            q,
            ranked_list(results.remove(i)),
            limit,
        ),
{
    lemma_empty_set_counts_nothing(results, i);
    assert(tally_of(results) =~= tally_of(results.remove(i)));
}

} // verus!
