//! Case permutations of a token.

use vstd::prelude::*;
use vstd::string::StrSliceExecFns;
use crate::text::texts;

verus! {

/// The upper-case letters `A` to `Z`.
pub open spec fn is_upper(c: char) -> bool {
    'A' <= c && c <= 'Z'
}

/// The lower-case letters `a` to `z`.
pub open spec fn is_lower(c: char) -> bool {
    'a' <= c && c <= 'z'
}

/// The characters whose case is permuted: the letters `a` to `z` and `A`
/// to `Z`. Every other character is held fixed.
pub open spec fn is_letter(c: char) -> bool {
    is_upper(c) || is_lower(c)
}

/// The lower-case form of a letter; any other character unchanged.
pub open spec fn lower_of(c: char) -> char {
    if is_upper(c) {
        ((c as u8 + 32) as u8) as char
    } else {
        c
    }
}

/// The upper-case form of a letter; any other character unchanged.
pub open spec fn upper_of(c: char) -> char {
    if is_lower(c) {
        ((c as u8 - 32) as u8) as char
    } else {
        c
    }
}

/// Two to the power of `k`.
pub open spec fn two_pow(k: nat) -> nat
    decreases k,
{
    if k == 0 {
        1
    } else {
        2 * two_pow((k - 1) as nat)
    }
}

/// The number of letters in a token.
pub open spec fn letter_count(t: Seq<char>) -> nat
    decreases t.len(),
{
    if t.len() == 0 {
        0
    } else {
        letter_count(t.drop_last()) + if is_letter(t.last()) {
            1nat
        } else {
            0nat
        }
    }
}

/// Every item of `items` with `c` appended.
pub open spec fn extend(items: Seq<Seq<char>>, c: char) -> Seq<Seq<char>> {
    items.map_values(|s: Seq<char>| s.push(c))
}

/// All casings of a token, letters chosen independently, in the order of
/// the bit patterns over the letters' positions: the first letter changes
/// fastest, and lower case comes before upper case.
pub open spec fn case_permutations_of(t: Seq<char>) -> Seq<Seq<char>>
    decreases t.len(),
{
    if t.len() == 0 {
        seq![Seq::empty()]
    } else {
        let front = case_permutations_of(t.drop_last());
        let c = t.last();
        if is_letter(c) {
            extend(front, lower_of(c)) + extend(front, upper_of(c))
        } else {
            extend(front, c)
        }
    }
}

/// `v` differs from `t` in letter case only.
pub open spec fn case_variant(v: Seq<char>, t: Seq<char>) -> bool {
    &&& v.len() == t.len()
    &&& forall|i: int|
        0 <= i < t.len() ==> #[trigger] v[i] == t[i] || (is_letter(t[i]) && lower_of(v[i])
            == lower_of(t[i]))
}

/// The two forms of a letter differ, and both are forms of that letter.
pub proof fn lemma_letter_forms(c: char)
    requires
        is_letter(c),
    ensures
        lower_of(c) != upper_of(c),
        lower_of(c) == c || upper_of(c) == c,
        lower_of(lower_of(c)) == lower_of(c),
        lower_of(upper_of(c)) == lower_of(c),
        is_lower(lower_of(c)),
        is_upper(upper_of(c)),
{
}

/// A token with `k` letters has `2^k` case permutations; each differs from
/// the token in letter case only, and no two of them are equal.
pub proof fn lemma_case_permutations(t: Seq<char>)
    ensures
        case_permutations_of(t).len() == two_pow(letter_count(t)),
        forall|i: int|
            0 <= i < case_permutations_of(t).len() ==> case_variant(
                #[trigger] case_permutations_of(t)[i],
                t,
            ),
        forall|i: int, j: int|
            0 <= i < j < case_permutations_of(t).len() ==> case_permutations_of(t)[i]
                != case_permutations_of(t)[j],
    decreases t.len(),
{
    let all = case_permutations_of(t);
    if t.len() == 0 {
        assert(all[0].len() == 0);
    } else {
        let front = case_permutations_of(t.drop_last());
        let c = t.last();
        let n = front.len() as int;
        lemma_case_permutations(t.drop_last());
        if is_letter(c) {
            lemma_letter_forms(c);
        }
        assert forall|i: int| 0 <= i < all.len() implies case_variant(#[trigger] all[i], t) by {
            let base = if i < n { front[i] } else { front[i - n] };
            let last = all[i].last();
            assert(case_variant(base, t.drop_last()));
            assert(all[i] == base.push(last));
            assert forall|m: int| 0 <= m < t.len() implies #[trigger] all[i][m] == t[m]
                || (is_letter(t[m]) && lower_of(all[i][m]) == lower_of(t[m])) by {
                if m < t.len() - 1 {
                    assert(all[i][m] == base[m]);
                    assert(t.drop_last()[m] == t[m]);
                }
            }
        }
        assert forall|i: int, j: int| 0 <= i < j < all.len() implies all[i] != all[j] by {
            let bi = if i < n { front[i] } else { front[i - n] };
            let bj = if j < n { front[j] } else { front[j - n] };
            assert(all[i].drop_last() =~= bi);
            assert(all[j].drop_last() =~= bj);
            if i < n && j >= n {
                assert(all[i].last() != all[j].last());
            }
        }
    }
}

/// A token of at most three characters has at most eight case
/// permutations.
pub proof fn lemma_trigram_expansion_bounded(t: Seq<char>)
    requires
        t.len() <= 3,
    ensures
        case_permutations_of(t).len() <= 8,
{
    lemma_case_permutations(t);
    lemma_letter_count_bounded(t);
    reveal_with_fuel(two_pow, 4);
}

/// A token has no more letters than characters.
pub proof fn lemma_letter_count_bounded(t: Seq<char>)
    ensures
        letter_count(t) <= t.len(),
    decreases t.len(),
{
    if t.len() > 0 {
        lemma_letter_count_bounded(t.drop_last());
    }
}

/// Decides whether `c` is a letter whose case is permuted.
pub fn letter(c: char) -> (yes: bool)
    ensures
        yes == is_letter(c),
{
    ('a' <= c && c <= 'z') || ('A' <= c && c <= 'Z')
}

/// The lower-case form of `c`.
pub fn to_lower(c: char) -> (low: char)
    ensures
        low == lower_of(c),
{
    if 'A' <= c && c <= 'Z' {
        ((c as u8) + 32u8) as char
    } else {
        c
    }
}

/// The upper-case form of `c`.
pub fn to_upper(c: char) -> (up: char)
    ensures
        up == upper_of(c),
{
    if 'a' <= c && c <= 'z' {
        ((c as u8) - 32u8) as char
    } else {
        c
    }
}

/// Appends to `out` every item of `items` with `c` at its end.
fn append_extended(out: &mut Vec<String>, items: &Vec<String>, c: char)
    ensures
        texts(final(out)@) == texts(old(out)@) + extend(texts(items@), c),
{
    let mut i: usize = 0;
    let ghost start = texts(out@);
    assert(extend(texts(items@), c).take(0) =~= Seq::empty());
    assert(texts(out@) =~= start + extend(texts(items@), c).take(0));
    while i < items.len()
        invariant
            i <= items@.len(),
            texts(out@) == start + extend(texts(items@), c).take(i as int),
        decreases items@.len() - i,
    {
        let ghost before = texts(out@);
        let mut item: String = items[i].clone();
        item.push(c);
        out.push(item);
        assert(texts(out@) =~= before.push(items@[i as int]@.push(c)));
        assert(extend(texts(items@), c).take(i + 1) =~= extend(texts(items@), c).take(
            i as int,
        ).push(items@[i as int]@.push(c)));
        assert(texts(out@) =~= start + extend(texts(items@), c).take(i + 1));
        i += 1;
    }
    assert(extend(texts(items@), c).take(i as int) =~= extend(texts(items@), c));
}

/// Expands a token into all its casings.
pub fn case_permutations(token: &str) -> (variants: Vec<String>)
    ensures
        texts(variants@) == case_permutations_of(token@),
{
    let n: usize = token.unicode_len();
    let mut variants: Vec<String> = Vec::new();
    variants.push(String::new());
    let mut i: usize = 0;
    proof {
        assert(token@.take(0) =~= Seq::empty());
        assert(texts(variants@) =~= seq![Seq::<char>::empty()]);
    }
    while i < n
        invariant
            n == token@.len(),
            i <= n,
            texts(variants@) == case_permutations_of(token@.take(i as int)),
        decreases n - i,
    {
        let c: char = token.get_char(i);
        let mut next: Vec<String> = Vec::new();
        proof {
            assert(token@.take(i + 1).drop_last() =~= token@.take(i as int));
            assert(token@.take(i + 1).last() == c);
            assert(texts(next@) =~= Seq::empty());
        }
        if letter(c) {
            append_extended(&mut next, &variants, to_lower(c));
            append_extended(&mut next, &variants, to_upper(c));
        } else {
            append_extended(&mut next, &variants, c);
        }
        assert(texts(next@) =~= case_permutations_of(token@.take(i + 1)));
        variants = next;
        i += 1;
    }
    assert(token@.take(i as int) =~= token@);
    variants
}

} // verus!
