//! Facts about sequences that the list contracts are stated with.

use vstd::prelude::*;
use vstd::std_specs::cmp::PartialEqSpec;

verus! {

/// `i` is the first position of `s` whose element equals `item`.
pub open spec fn is_first_match<T: PartialEq>(s: Seq<T>, item: T, i: int) -> bool {
    &&& 0 <= i < s.len()
    &&& s[i].eq_spec(&item)
    &&& forall|j: int| 0 <= j < i ==> !(#[trigger] s[j]).eq_spec(&item)
}

/// No element of `s` equals `item`.
pub open spec fn no_match<T: PartialEq>(s: Seq<T>, item: T) -> bool {
    forall|j: int| 0 <= j < s.len() ==> !(#[trigger] s[j]).eq_spec(&item)
}

/// Inserting `x` at position `i` puts `x` there, leaves the elements before
/// `i` in place and moves every element from `i` on one position later.
pub proof fn lemma_insert_shifts_later_elements<T>(s: Seq<T>, i: int, x: T)
    requires
        0 <= i < s.len(),
    ensures
        s.insert(i, x).len() == s.len() + 1,
        s.insert(i, x)[i] == x,
        forall|k: int| 0 <= k < i ==> #[trigger] s.insert(i, x)[k] == s[k],
        forall|k: int| i <= k < s.len() ==> s.insert(i, x)[k + 1] == #[trigger] s[k],
{
}

/// Inserting `x` at position `i` and then removing position `i` gives back
/// `x` and the sequence as it was.
pub proof fn lemma_insert_then_remove<T>(s: Seq<T>, i: int, x: T)
    requires
        0 <= i < s.len(),
    ensures
        s.insert(i, x)[i] == x,
        s.insert(i, x).remove(i) == s,
{
    assert(s.insert(i, x).remove(i) =~= s);
}

/// After `x` is appended, a search for `x` finds a match provided `x`
/// equals itself; removing the first match `i` restores the length, and the
/// element removed equals `x`: apart from it, the elements are those of `s`
/// and `x`.
pub proof fn lemma_append_then_remove_match<T: PartialEq>(s: Seq<T>, x: T, i: int)
    requires
        is_first_match(s.push(x), x, i),
    ensures
        !no_match(s.push(x), x),
        s.push(x).remove(i).len() == s.len(),
        s.push(x)[i].eq_spec(&x),
        s.push(x).remove(i).to_multiset().insert(s.push(x)[i]) == s.to_multiset().insert(x),
{
    broadcast use vstd::multiset::group_multiset_axioms;
    broadcast use vstd::seq_lib::group_to_multiset_ensures;

    let t = s.push(x);
    assert(t.contains(t[i]));
    assert(t.remove(i).to_multiset().insert(t[i]) =~= t.to_multiset());
}

/// Appending an element that equals itself leaves a match to be found.
pub proof fn lemma_appended_is_found<T: PartialEq>(s: Seq<T>, x: T)
    requires
        x.eq_spec(&x),
    ensures
        !no_match(s.push(x), x),
        exists|i: int| is_first_match(s.push(x), x, i),
{
    let t = s.push(x);
    assert(t[s.len() as int] == x);
    lemma_first_match_exists(t, x, s.len() as int);
}

/// Where some element equals `item`, there is a first one.
pub proof fn lemma_first_match_exists<T: PartialEq>(s: Seq<T>, item: T, k: int)
    requires
        0 <= k < s.len(),
        s[k].eq_spec(&item),
    ensures
        exists|i: int| is_first_match(s, item, i),
    decreases k,
{
    if forall|j: int| 0 <= j < k ==> !(#[trigger] s[j]).eq_spec(&item) {
        assert(is_first_match(s, item, k));
    } else {
        let j = choose|j: int| 0 <= j < k && (#[trigger] s[j]).eq_spec(&item);
        lemma_first_match_exists(s, item, j);
    }
}

} // verus!
