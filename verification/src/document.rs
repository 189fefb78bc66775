//! Documents and the candidate counts of one fuzzy pass.

use vstd::prelude::*;
use crate::distinct::distinct;

verus! {

/// A candidate match returned by the index.
#[derive(Debug, Clone)]
pub struct Document {
    pub relative_path: String,
    pub repo_name: String,
    pub lang: String,
    pub repo_ref: String,
}

/// The identity of a document: two documents with equal keys are the same
/// entity.
pub struct DocumentKey {
    pub relative_path: Seq<char>,
    pub repo_name: Seq<char>,
    pub lang: Seq<char>,
    pub repo_ref: Seq<char>,
}

impl View for Document {
    type V = DocumentKey;

    open spec fn view(&self) -> DocumentKey {
        DocumentKey {
            relative_path: self.relative_path@,
            repo_name: self.repo_name@,
            lang: self.lang@,
            repo_ref: self.repo_ref@,
        }
    }
}

impl Document {
    /// Decides whether two documents are the same entity.
    pub fn same_as(&self, other: &Document) -> (same: bool)
        ensures
            same == (self@ == other@),
    {
        self.relative_path == other.relative_path && self.repo_name == other.repo_name
            && self.lang == other.lang && self.repo_ref == other.repo_ref
    }

    /// A copy of the document.
    pub fn duplicate(&self) -> (copy: Document)
        ensures
            copy == *self,
    {
        Document {
            relative_path: self.relative_path.clone(),
            repo_name: self.repo_name.clone(),
            lang: self.lang.clone(),
            repo_ref: self.repo_ref.clone(),
        }
    }
}

/// The keys of a sequence of documents.
pub open spec fn keys(docs: Seq<Document>) -> Seq<DocumentKey> {
    docs.map_values(|d: Document| d@)
}

/// Every hit of every result set, in the order in which they came.
pub open spec fn all_hits(results: Seq<Vec<Document>>) -> Seq<DocumentKey>
    decreases results.len(),
{
    if results.len() == 0 {
        Seq::empty()
    } else {
        all_hits(results.drop_last()) + keys(results.last()@)
    }
}

/// The number of result sets, one per token, that hold the document at
/// least once.
pub open spec fn hit_count(results: Seq<Vec<Document>>, key: DocumentKey) -> nat
    decreases results.len(),
{
    if results.len() == 0 {
        0
    } else {
        hit_count(results.drop_last(), key) + if keys(results.last()@).contains(key) {
            1nat
        } else {
            0nat
        }
    }
}

/// A document is counted at most once per result set.
pub proof fn lemma_hit_count_bounded(results: Seq<Vec<Document>>, key: DocumentKey)
    ensures
        hit_count(results, key) <= results.len(),
    decreases results.len(),
{
    if results.len() > 0 {
        lemma_hit_count_bounded(results.drop_last(), key);
    }
}

/// A document is counted at least once exactly if some result set holds it.
pub proof fn lemma_hit_count_positive(results: Seq<Vec<Document>>, key: DocumentKey)
    ensures
        hit_count(results, key) > 0 <==> all_hits(results).contains(key),
    decreases results.len(),
{
    if results.len() > 0 {
        lemma_hit_count_positive(results.drop_last(), key);
        let front = all_hits(results.drop_last());
        let back = keys(results.last()@);
        lemma_concat_contains(front, back, key);
    }
}

/// An item is in a concatenation exactly if it is in one of the parts.
pub proof fn lemma_concat_contains<T>(a: Seq<T>, b: Seq<T>, x: T)
    ensures
        (a + b).contains(x) <==> a.contains(x) || b.contains(x),
{
    if a.contains(x) {
        let i = choose|i: int| 0 <= i < a.len() && a[i] == x;
        assert((a + b)[i] == x);
    }
    if b.contains(x) {
        let i = choose|i: int| 0 <= i < b.len() && b[i] == x;
        assert((a + b)[a.len() + i] == x);
    }
    if (a + b).contains(x) {
        let i = choose|i: int| 0 <= i < (a + b).len() && (a + b)[i] == x;
        if i < a.len() {
            assert(a[i] == x);
        } else {
            assert(b[i - a.len()] == x);
        }
    }
}

/// The candidate counts of one fuzzy pass: `counts[j]` belongs to `docs[j]`.
pub struct CandidateCounts {
    pub docs: Vec<Document>,
    pub counts: Vec<usize>,
}

impl CandidateCounts {
    /// The counts are those of `results`: every document that occurs is
    /// listed once, in the order of first occurrence, with the number of
    /// result sets that hold it.
    pub open spec fn counts_of(&self, results: Seq<Vec<Document>>) -> bool {
        &&& keys(self.docs@) == distinct(all_hits(results))
        &&& self.counts@.len() == self.docs@.len()
        &&& forall|j: int|
            0 <= j < self.docs@.len() ==> #[trigger] self.counts@[j] == hit_count(
                results,
                self.docs@[j]@,
            )
    }
}

/// Finds the place of a document among `docs`.
pub fn position_of(docs: &Vec<Document>, doc: &Document) -> (place: Option<usize>)
    ensures
        match place {
            Some(j) => j < docs@.len() && docs@[j as int]@ == doc@ && forall|k: int|
                0 <= k < j ==> (#[trigger] docs@[k])@ != doc@,
            None => !keys(docs@).contains(doc@),
        },
{
    let mut i: usize = 0;
    while i < docs.len()
        invariant
            i <= docs@.len(),
            forall|k: int| 0 <= k < i ==> (#[trigger] docs@[k])@ != doc@,
        decreases docs@.len() - i,
    {
        if docs[i].same_as(doc) {
            return Some(i);
        }
        i += 1;
    }
    assert forall|k: int| 0 <= k < keys(docs@).len() implies keys(docs@)[k] != doc@ by {
        assert(docs@[k]@ != doc@);
    }
    None
}

/// Decides whether `doc` is among the first `end` documents of `docs`.
pub fn occurs_before(docs: &Vec<Document>, end: usize, doc: &Document) -> (found: bool)
    requires
        end <= docs@.len(),
    ensures
        found == keys(docs@.take(end as int)).contains(doc@),
{
    let mut i: usize = 0;
    while i < end
        invariant
            i <= end <= docs@.len(),
            forall|k: int| 0 <= k < i ==> (#[trigger] docs@[k])@ != doc@,
        decreases end - i,
    {
        if docs[i].same_as(doc) {
            assert(keys(docs@.take(end as int))[i as int] == doc@);
            return true;
        }
        i += 1;
    }
    assert forall|k: int| 0 <= k < keys(docs@.take(end as int)).len() implies keys(
        docs@.take(end as int),
    )[k] != doc@ by {
        assert(docs@[k]@ != doc@);
    }
    false
}

} // verus!
