//! First occurrences of the items of a sequence.

use vstd::prelude::*;
use crate::text::texts;

verus! {

/// The items of `s` without repetitions, each at the place of its first
/// occurrence.
pub open spec fn distinct<T>(s: Seq<T>) -> Seq<T>
    decreases s.len(),
{
    if s.len() == 0 {
        Seq::empty()
    } else {
        let d = distinct(s.drop_last());
        if d.contains(s.last()) {
            d
        } else {
            d.push(s.last())
        }
    }
}

/// `distinct` keeps exactly the items that occur.
pub proof fn lemma_distinct_contains<T>(s: Seq<T>, x: T)
    ensures
        distinct(s).contains(x) <==> s.contains(x),
    decreases s.len(),
{
    if s.len() > 0 {
        let d = distinct(s.drop_last());
        lemma_distinct_contains(s.drop_last(), x);
        lemma_distinct_contains(s.drop_last(), s.last());
        if s.contains(x) {
            let i = choose|i: int| 0 <= i < s.len() && s[i] == x;
            if i < s.len() - 1 {
                assert(s.drop_last()[i] == x);
            }
        }
        if s.drop_last().contains(x) {
            let i = choose|i: int| 0 <= i < s.drop_last().len() && s.drop_last()[i] == x;
            assert(s[i] == x);
        }
        assert(s[s.len() - 1] == s.last());
        if !d.contains(s.last()) {
            assert(d.push(s.last())[d.len() as int] == s.last());
            if d.contains(x) {
                let i = choose|i: int| 0 <= i < d.len() && d[i] == x;
                assert(d.push(s.last())[i] == x);
            }
        }
    }
}

/// No item occurs twice in `distinct(s)`.
pub proof fn lemma_distinct_no_repeats<T>(s: Seq<T>)
    ensures
        forall|a: int, b: int|
            0 <= a < b < distinct(s).len() ==> distinct(s)[a] != distinct(s)[b],
    decreases s.len(),
{
    if s.len() > 0 {
        lemma_distinct_no_repeats(s.drop_last());
        let d = distinct(s.drop_last());
        assert forall|a: int, b: int| 0 <= a < b < distinct(s).len() implies distinct(s)[a]
            != distinct(s)[b] by {
            if !d.contains(s.last()) && b == d.len() {
                assert(d[a] == distinct(s)[a]);
            }
        }
    }
}

/// `distinct` is never longer than its argument.
pub proof fn lemma_distinct_len<T>(s: Seq<T>)
    ensures
        distinct(s).len() <= s.len(),
    decreases s.len(),
{
    if s.len() > 0 {
        lemma_distinct_len(s.drop_last());
    }
}

/// Decides whether `item` is among `items`.
pub fn contains_text(items: &Vec<String>, item: &String) -> (found: bool)
    ensures
        found == texts(items@).contains(item@),
{
    let mut i: usize = 0;
    while i < items.len()
        invariant
            i <= items@.len(),
            forall|k: int| 0 <= k < i ==> (#[trigger] items@[k])@ != item@,
        decreases items@.len() - i,
    {
        if items[i] == *item {
            assert(texts(items@)[i as int] == item@);
            return true;
        }
        i += 1;
    }
    assert forall|k: int| 0 <= k < texts(items@).len() implies texts(items@)[k] != item@ by {
        assert(items@[k]@ != item@);
    }
    false
}

/// Removes repeated strings, keeping the first occurrence of each.
pub fn distinct_strings(items: &Vec<String>) -> (kept: Vec<String>)
    ensures
        texts(kept@) == distinct(texts(items@)),
{
    let mut kept: Vec<String> = Vec::new();
    let mut i: usize = 0;
    assert(texts(items@).take(0) =~= Seq::empty());
    assert(texts(kept@) =~= Seq::empty());
    while i < items.len()
        invariant
            i <= items@.len(),
            texts(kept@) == distinct(texts(items@).take(i as int)),
        decreases items@.len() - i,
    {
        let ghost before = texts(kept@);
        proof {
            assert(texts(items@).take(i + 1).drop_last() =~= texts(items@).take(i as int));
            assert(texts(items@).take(i + 1).last() == items@[i as int]@);
        }
        if !contains_text(&kept, &items[i]) {
            kept.push(items[i].clone());
            assert(texts(kept@) =~= before.push(items@[i as int]@));
        }
        i += 1;
    }
    assert(texts(items@).take(i as int) =~= texts(items@));
    kept
}

} // verus!
