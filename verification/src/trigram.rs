//! Sliding-window trigram extraction.

use vstd::prelude::*;
use vstd::string::StrSliceExecFns;
use crate::text::texts;

verus! {

/// The tokens of a query: its windows of three characters from left to
/// right, or the query itself where it is shorter than three characters.
pub open spec fn trigrams_of(q: Seq<char>) -> Seq<Seq<char>> {
    if q.len() < 3 {
        seq![q]
    } else {
        Seq::new((q.len() - 2) as nat, |i: int| q.subrange(i, i + 3))
    }
}

/// A query of at least three characters has `len - 2` trigrams, each of
/// three characters, the `i`-th starting at position `i`.
pub proof fn lemma_trigrams_sliding(q: Seq<char>)
    requires
        q.len() >= 3,
    ensures
        trigrams_of(q).len() == q.len() - 2,
        forall|i: int|
            0 <= i < q.len() - 2 ==> (#[trigger] trigrams_of(q)[i]).len() == 3
                && trigrams_of(q)[i] == q.subrange(i, i + 3),
        forall|i: int, j: int|
            0 <= i < q.len() - 2 && 0 <= j < 3 ==> (#[trigger] trigrams_of(q)[i][j]) == q[i + j],
{
}

/// A query of fewer than three characters is its own single token.
pub proof fn lemma_trigrams_short(q: Seq<char>)
    requires
        q.len() < 3,
    ensures
        trigrams_of(q).len() == 1,
        trigrams_of(q)[0] == q,
{
}

/// Cuts `query` into its trigrams.
pub fn trigrams(query: &str) -> (tokens: Vec<String>)
    ensures
        texts(tokens@) == trigrams_of(query@),
{
    let n: usize = query.unicode_len();
    let mut tokens: Vec<String> = Vec::new();
    if n < 3 {
        tokens.push(query.to_owned());
        assert(texts(tokens@) =~= trigrams_of(query@));
        return tokens;
    }
    let mut i: usize = 0;
    while i < n - 2
        invariant
            n == query@.len(),
            n >= 3,
            i <= n - 2,
            tokens@.len() == i,
            forall|k: int| 0 <= k < i ==> (#[trigger] tokens@[k])@ == query@.subrange(k, k + 3),
        decreases n - i,
    {
        tokens.push(query.substring_char(i, i + 3).to_owned());
        i += 1;
    }
    assert(texts(tokens@) =~= trigrams_of(query@));
    tokens
}

} // verus!
