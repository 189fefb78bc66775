//! Accumulation of candidate counts over the result sets of a fuzzy pass.

use vstd::prelude::*;
use crate::distinct::{distinct, lemma_distinct_contains, lemma_distinct_no_repeats};
use crate::document::{
    all_hits, hit_count, keys, lemma_concat_contains, lemma_hit_count_bounded,
    lemma_hit_count_positive, occurs_before, position_of, CandidateCounts, Document, DocumentKey,
};

verus! {

/// The hits seen once the first `i` result sets and the first `k` hits of
/// the next one have been read.
pub open spec fn hits_seen(results: Seq<Vec<Document>>, i: int, k: int) -> Seq<DocumentKey> {
    all_hits(results.take(i)) + keys(results[i]@.take(k))
}

/// What a document counts for at that point.
pub open spec fn count_seen(results: Seq<Vec<Document>>, i: int, k: int, key: DocumentKey) -> nat {
    hit_count(results.take(i), key) + if keys(results[i]@.take(k)).contains(key) {
        1nat
    } else {
        0nat
    }
}

proof fn lemma_seen_step(results: Seq<Vec<Document>>, i: int, k: int)
    requires
        0 <= i < results.len(),
        0 <= k < results[i]@.len(),
    ensures
        hits_seen(results, i, k + 1) == hits_seen(results, i, k).push(results[i]@[k]@),
        forall|key: DocumentKey|
            keys(results[i]@.take(k + 1)).contains(key) <==> keys(results[i]@.take(k)).contains(
                key,
            ) || key == results[i]@[k]@,
{
    let set = results[i]@;
    let hit = set[k]@;
    assert(keys(set.take(k + 1)) =~= keys(set.take(k)).push(hit));
    assert(hits_seen(results, i, k + 1) =~= hits_seen(results, i, k).push(hit));
    assert forall|key: DocumentKey|
        keys(set.take(k + 1)).contains(key) <==> keys(set.take(k)).contains(key) || key
            == hit by {
        lemma_concat_contains(keys(set.take(k)), seq![hit], key);
        assert(keys(set.take(k)).push(hit) =~= keys(set.take(k)) + seq![hit]);
        assert(seq![hit][0] == hit);
    }
}

proof fn lemma_seen_start(results: Seq<Vec<Document>>, i: int)
    requires
        0 <= i < results.len(),
    ensures
        hits_seen(results, i, 0) == all_hits(results.take(i)),
        forall|key: DocumentKey| count_seen(results, i, 0, key) == hit_count(results.take(i), key),
{
    assert(keys(results[i]@.take(0)) =~= Seq::empty());
    assert(hits_seen(results, i, 0) =~= all_hits(results.take(i)));
}

proof fn lemma_seen_end(results: Seq<Vec<Document>>, i: int)
    requires
        0 <= i < results.len(),
    ensures
        hits_seen(results, i, results[i]@.len() as int) == all_hits(results.take(i + 1)),
        forall|key: DocumentKey|
            count_seen(results, i, results[i]@.len() as int, key) == hit_count(
                results.take(i + 1),
                key,
            ),
{
    assert(results[i]@.take(results[i]@.len() as int) =~= results[i]@);
    assert(results.take(i + 1).drop_last() =~= results.take(i));
    assert(results.take(i + 1).last() == results[i]);
}

/// In the candidate counts of `results` no document is listed twice, and
/// every count is at least one and at most the number of result sets.
pub proof fn lemma_counts_of(tally: CandidateCounts, results: Seq<Vec<Document>>)
    requires
        tally.counts_of(results),
    ensures
        forall|a: int, b: int|
            0 <= a < b < tally.docs@.len() ==> tally.docs@[a]@ != tally.docs@[b]@,
        forall|j: int|
            0 <= j < tally.docs@.len() ==> 1 <= #[trigger] tally.counts@[j] <= results.len(),
{
    let found = distinct(all_hits(results));
    lemma_distinct_no_repeats(all_hits(results));
    assert forall|a: int, b: int| 0 <= a < b < tally.docs@.len() implies tally.docs@[a]@
        != tally.docs@[b]@ by {
        assert(keys(tally.docs@)[a] == tally.docs@[a]@);
        assert(keys(tally.docs@)[b] == tally.docs@[b]@);
    }
    assert forall|j: int| 0 <= j < tally.docs@.len() implies 1 <= #[trigger] tally.counts@[j]
        <= results.len() by {
        let key = tally.docs@[j]@;
        assert(found[j] == key) by {
            assert(keys(tally.docs@)[j] == key);
        }
        assert(found.contains(key));
        lemma_distinct_contains(all_hits(results), key);
        lemma_hit_count_positive(results, key);
        lemma_hit_count_bounded(results, key);
    }
}

/// Counts, for every document that occurs in `results`, the result sets
/// that hold it. `results` has one result set per token; a document that a
/// set holds several times counts once for that set.
pub fn aggregate(results: &Vec<Vec<Document>>) -> (tally: CandidateCounts)
    ensures
        tally.counts_of(results@),
{
    let mut docs: Vec<Document> = Vec::new();
    let mut counts: Vec<usize> = Vec::new();
    let total: usize = results.len();
    let mut i: usize = 0;
    proof {
        assert(results@.take(0) =~= Seq::empty());
        assert(keys(docs@) =~= Seq::empty());
    }
    while i < total
        invariant
            total == results@.len(),
            i <= results@.len(),
            keys(docs@) == distinct(all_hits(results@.take(i as int))),
            counts@.len() == docs@.len(),
            forall|j: int|
                0 <= j < docs@.len() ==> #[trigger] counts@[j] == hit_count(
                    results@.take(i as int),
                    docs@[j]@,
                ),
        decreases results@.len() - i,
    {
        let set = &results[i];
        let mut k: usize = 0;
        proof {
            lemma_seen_start(results@, i as int);
        }
        while k < set.len()
            invariant
                total == results@.len(),
                i < results@.len(),
                set == results@[i as int],
                k <= set@.len(),
                keys(docs@) == distinct(hits_seen(results@, i as int, k as int)),
                counts@.len() == docs@.len(),
                forall|j: int|
                    0 <= j < docs@.len() ==> #[trigger] counts@[j] == count_seen(
                        results@,
                        i as int,
                        k as int,
                        docs@[j]@,
                    ),
            decreases set@.len() - k,
        {
            let hit = &set[k];
            let ghost seen = hits_seen(results@, i as int, k as int);
            let ghost old_docs = docs@;
            let ghost old_counts = counts@;
            proof {
                lemma_seen_step(results@, i as int, k as int);
                assert(seen.push(hit@).drop_last() =~= seen);
                lemma_distinct_contains(seen, hit@);
                lemma_distinct_no_repeats(seen);
                lemma_concat_contains(
                    all_hits(results@.take(i as int)),
                    keys(set@.take(k as int)),
                    hit@,
                );
                lemma_hit_count_positive(results@.take(i as int), hit@);
                lemma_hit_count_bounded(results@.take(i as int), hit@);
            }
            match position_of(&docs, hit) {
                Some(j) => {
                    assert(keys(docs@)[j as int] == hit@);
                    if !occurs_before(set, k, hit) {
                        let n: usize = counts[j];
                        assert(n == count_seen(results@, i as int, k as int, docs@[j as int]@));
                        assert(n <= i);
                        counts.set(j, n + 1);
                    }
                    proof {
                        assert forall|m: int| 0 <= m < docs@.len() implies #[trigger] counts@[m]
                            == count_seen(results@, i as int, k + 1, docs@[m]@) by {
                            assert(old_counts[m] == count_seen(
                                results@,
                                i as int,
                                k as int,
                                docs@[m]@,
                            ));
                            if m != j {
                                assert(keys(docs@)[m] != keys(docs@)[j as int]);
                            }
                        }
                    }
                },
                None => {
                    docs.push(hit.duplicate());
                    counts.push(1);
                    proof {
                        assert(keys(docs@) =~= keys(old_docs).push(hit@));
                        assert forall|m: int| 0 <= m < docs@.len() implies #[trigger] counts@[m]
                            == count_seen(results@, i as int, k + 1, docs@[m]@) by {
                            if m < old_docs.len() {
                                assert(old_counts[m] == count_seen(
                                    results@,
                                    i as int,
                                    k as int,
                                    old_docs[m]@,
                                ));
                                assert(keys(old_docs)[m] == old_docs[m]@);
                            }
                        }
                    }
                },
            }
            k += 1;
        }
        proof {
            lemma_seen_end(results@, i as int);
        }
        i += 1;
    }
    assert(results@.take(i as int) =~= results@);
    CandidateCounts { docs, counts }
}

} // verus!
