//! Ranking of candidates by count and path.

use vstd::prelude::*;
use crate::document::CandidateCounts;
use crate::order::{lemma_lex_not_after_transitive, lemma_lex_total, lex_lt, path_before};
use vstd::seq_lib::{to_multiset_build, to_multiset_insert};
use crate::text::texts;

verus! {

/// A path with its candidate count.
pub struct Scored {
    pub path: Seq<char>,
    pub count: nat,
}

/// `x` ranks strictly before `y`: it has the higher count, or the same
/// count and the lexically smaller path.
pub open spec fn comes_before(x: Scored, y: Scored) -> bool {
    x.count > y.count || (x.count == y.count && lex_lt(x.path, y.path))
}

/// `x` may stand before `y` in a ranked list.
pub open spec fn in_order(x: Scored, y: Scored) -> bool {
    !comes_before(y, x)
}

/// Where `x` enters the ranked list `s`: behind the last entry that does
/// not rank strictly after it.
pub open spec fn slot(s: Seq<Scored>, x: Scored) -> int
    decreases s.len(),
{
    if s.len() == 0 {
        0
    } else if comes_before(x, s.last()) {
        slot(s.drop_last(), x)
    } else {
        s.len() as int
    }
}

/// The entries of `s` ranked: count descending, then path ascending.
pub open spec fn ranked(s: Seq<Scored>) -> Seq<Scored>
    decreases s.len(),
{
    if s.len() == 0 {
        Seq::empty()
    } else {
        let front = ranked(s.drop_last());
        front.insert(slot(front, s.last()), s.last())
    }
}

/// The paths of a list of entries.
pub open spec fn paths_of(s: Seq<Scored>) -> Seq<Seq<char>> {
    s.map_values(|e: Scored| e.path)
}

/// The entries that paths and counts at equal places make up.
pub open spec fn pairs(paths: Seq<String>, counts: Seq<usize>) -> Seq<Scored> {
    Seq::new(paths.len(), |j: int| Scored { path: paths[j]@, count: counts[j] as nat })
}

/// Of two entries one ranks strictly before the other, never both, unless
/// they agree in count and path.
pub proof fn lemma_order_total(x: Scored, y: Scored)
    ensures
        comes_before(x, y) || comes_before(y, x) || (x.count == y.count && x.path == y.path),
        !(comes_before(x, y) && comes_before(y, x)),
        in_order(x, y) <==> x.count > y.count || (x.count == y.count && !lex_lt(y.path, x.path)),
{
    lemma_lex_total(x.path, y.path);
}

/// Entries that may stand in order one after another may do so at any
/// distance.
pub proof fn lemma_in_order_transitive(x: Scored, y: Scored, z: Scored)
    requires
        in_order(x, y),
        in_order(y, z),
    ensures
        in_order(x, z),
{
    if x.count == y.count && y.count == z.count {
        lemma_lex_not_after_transitive(x.path, y.path, z.path);
    }
}

/// The slot lies in the list; every entry from it on ranks strictly after
/// `x`, and the entry just before it does not.
pub proof fn lemma_slot(s: Seq<Scored>, x: Scored)
    ensures
        0 <= slot(s, x) <= s.len(),
        forall|j: int| slot(s, x) <= j < s.len() ==> comes_before(x, #[trigger] s[j]),
        slot(s, x) > 0 ==> !comes_before(x, s[slot(s, x) - 1]),
    decreases s.len(),
{
    if s.len() > 0 && comes_before(x, s.last()) {
        lemma_slot(s.drop_last(), x);
        assert forall|j: int| slot(s, x) <= j < s.len() implies comes_before(
            x,
            #[trigger] s[j],
        ) by {
            if j < s.len() - 1 {
                assert(s.drop_last()[j] == s[j]);
            }
        }
        if slot(s, x) > 0 {
            assert(s.drop_last()[slot(s, x) - 1] == s[slot(s, x) - 1]);
        }
    }
}

/// A ranked list is in order: of any two entries the earlier one has the
/// higher count, or the same count and a path that is not lexically after
/// the later one's.
pub proof fn lemma_ranked_in_order(s: Seq<Scored>)
    ensures
        ranked(s).len() == s.len(),
        forall|a: int, b: int|
            0 <= a < b < s.len() ==> in_order(#[trigger] ranked(s)[a], #[trigger] ranked(s)[b]),
        forall|a: int, b: int|
            0 <= a < b < s.len() ==> ranked(s)[a].count > ranked(s)[b].count || (ranked(
                s,
            )[a].count == ranked(s)[b].count && !lex_lt(ranked(s)[b].path, ranked(s)[a].path)),
    decreases s.len(),
{
    if s.len() > 0 {
        let front = ranked(s.drop_last());
        let x = s.last();
        let p = slot(front, x);
        let r = ranked(s);
        lemma_ranked_in_order(s.drop_last());
        lemma_slot(front, x);
        assert(r == front.insert(p, x));
        assert forall|a: int, b: int| 0 <= a < b < s.len() implies in_order(
            #[trigger] r[a],
            #[trigger] r[b],
        ) by {
            if b < p {
                assert(in_order(front[a], front[b]));
            } else if b == p {
                if a < p - 1 {
                    assert(in_order(front[a], front[p - 1]));
                    lemma_in_order_transitive(front[a], front[p - 1], x);
                }
            } else if a < p {
                assert(in_order(front[a], front[b - 1]));
            } else if a == p {
                assert(comes_before(x, front[b - 1]));
                lemma_order_total(x, front[b - 1]);
            } else {
                assert(in_order(front[a - 1], front[b - 1]));
            }
        }
        assert forall|a: int, b: int| 0 <= a < b < s.len() implies r[a].count > r[b].count
            || (r[a].count == r[b].count && !lex_lt(r[b].path, r[a].path)) by {
            assert(in_order(r[a], r[b]));
        }
    }
}

/// A ranked list holds the entries it was made from, each as often as it
/// came.
pub proof fn lemma_ranked_permutation(s: Seq<Scored>)
    ensures
        ranked(s).to_multiset() == s.to_multiset(),
    decreases s.len(),
{
    if s.len() > 0 {
        let front = ranked(s.drop_last());
        lemma_ranked_permutation(s.drop_last());
        lemma_slot(front, s.last());
        to_multiset_insert(front, slot(front, s.last()), s.last());
        to_multiset_build(s.drop_last(), s.last());
        assert(s.drop_last().push(s.last()) =~= s);
    } else {
        assert(ranked(s) =~= s);
    }
}

impl CandidateCounts {
    /// Every document has its count.
    pub open spec fn well_formed(&self) -> bool {
        self.counts@.len() == self.docs@.len()
    }

    /// The path and count of every candidate.
    pub open spec fn scored(&self) -> Seq<Scored> {
        Seq::new(
            self.docs@.len(),
            |j: int| Scored { path: self.docs@[j].relative_path@, count: self.counts@[j] as nat },
        )
    }
}

/// Finds the place at which an entry enters the ranked list held in
/// `paths` and `counts`.
fn find_slot(paths: &Vec<String>, counts: &Vec<usize>, path: &String, count: usize) -> (p: usize)
    requires
        paths@.len() == counts@.len(),
    ensures
        p == slot(pairs(paths@, counts@), Scored { path: path@, count: count as nat }),
        p <= paths@.len(),
{
    let ghost list = pairs(paths@, counts@);
    let ghost x = Scored { path: path@, count: count as nat };
    let mut p: usize = paths.len();
    assert(list.take(p as int) =~= list);
    while p > 0
        invariant
            paths@.len() == counts@.len(),
            list == pairs(paths@, counts@),
            x == (Scored { path: path@, count: count as nat }),
            p <= paths@.len(),
            slot(list, x) == slot(list.take(p as int), x),
        decreases p,
    {
        let other: usize = counts[p - 1];
        assert(list.take(p as int).last() == list[p - 1]);
        let before = count > other || (count == other && path_before(
            path.as_str(),
            paths[p - 1].as_str(),
        ));
        if !before {
            return p;
        }
        assert(list.take(p as int).drop_last() =~= list.take(p - 1));
        p -= 1;
    }
    p
}

/// Orders the candidates by count, highest first, and by path among equal
/// counts, and returns their paths.
pub fn rank(tally: &CandidateCounts) -> (paths: Vec<String>)
    requires
        tally.well_formed(),
    ensures
        texts(paths@) == paths_of(ranked(tally.scored())),
{
    let mut paths: Vec<String> = Vec::new();
    let mut counts: Vec<usize> = Vec::new();
    let total: usize = tally.docs.len();
    let mut i: usize = 0;
    proof {
        assert(tally.scored().take(0) =~= Seq::empty());
        assert(pairs(paths@, counts@) =~= Seq::empty());
    }
    while i < total
        invariant
            tally.well_formed(),
            total == tally.docs@.len(),
            i <= total,
            paths@.len() == counts@.len(),
            pairs(paths@, counts@) == ranked(tally.scored().take(i as int)),
        decreases total - i,
    {
        let path: String = tally.docs[i].relative_path.clone();
        let count: usize = tally.counts[i];
        let ghost list = pairs(paths@, counts@);
        let ghost x = Scored { path: path@, count: count as nat };
        proof {
            assert(tally.scored().take(i + 1).drop_last() =~= tally.scored().take(i as int));
            assert(tally.scored().take(i + 1).last() == x);
        }
        let p: usize = find_slot(&paths, &counts, &path, count);
        paths.insert(p, path);
        counts.insert(p, count);
        assert(pairs(paths@, counts@) =~= list.insert(p as int, x));
        i += 1;
    }
    proof {
        assert(tally.scored().take(i as int) =~= tally.scored());
        assert(texts(paths@) =~= paths_of(pairs(paths@, counts@)));
    }
    paths
}

} // verus!
