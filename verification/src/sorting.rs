use vstd::prelude::*;
use vstd::relations::{sorted_by, total_ordering};
use vstd::seq_lib::{lemma_sorted_unique, to_multiset_build, to_multiset_remove};

verus! {

/// No element is smaller than one that follows it.
pub open spec fn descending(s: Seq<u32>) -> bool {
    forall|i: int, j: int| 0 <= i < j < s.len() ==> s[i] >= s[j]
}

/// The numbers of a sequence from the largest to the smallest, repeats kept.
pub open spec fn sorted_descending(values: Seq<u32>) -> Seq<u32> {
    values.sort_by(|a: u32, b: u32| a >= b)
}

/// The one descending arrangement of a sequence is `sorted_descending` of it.
pub proof fn lemma_descending_unique(sorted: Seq<u32>, values: Seq<u32>)
    requires
        descending(sorted),
        sorted.to_multiset() == values.to_multiset(),
    ensures
        sorted == sorted_descending(values),
{
    let geq = |a: u32, b: u32| a >= b;
    assert(total_ordering(geq));
    values.lemma_sort_by_ensures(geq);
    assert(sorted_by(sorted, geq));
    lemma_sorted_unique(sorted, values.sort_by(geq), geq);
}

/// Inserting an element anywhere adds it once to the elements held.
pub proof fn lemma_insert_to_multiset(s: Seq<u32>, at: int, value: u32)
    requires
        0 <= at <= s.len(),
    ensures
        s.insert(at, value).to_multiset() == s.to_multiset().insert(value),
{
    let t = s.insert(at, value);
    assert(t.remove(at) =~= s);
    assert(t[at] == value);
    to_multiset_remove(t, at);
    t.to_multiset_ensures();
    assert(t.contains(value));
    assert(t.to_multiset() =~= s.to_multiset().insert(value));
}

/// The same numbers from the largest to the smallest, repeats kept.
pub fn sort_descending(values: &[u32]) -> (sorted: Vec<u32>)
    ensures
        descending(sorted@),
        sorted@.to_multiset() == values@.to_multiset(),
        sorted@.len() == values@.len(),
        sorted@ == sorted_descending(values@),
{
    let mut sorted: Vec<u32> = Vec::new();
    let mut i: usize = 0;
    assert(values@.take(0) =~= sorted@);
    while i < values.len()
        invariant
            0 <= i <= values.len(),
            descending(sorted@),
            sorted@.len() == i,
            sorted@.to_multiset() == values@.take(i as int).to_multiset(),
        decreases values.len() - i,
    {
        let value: u32 = values[i];
        let mut at: usize = 0;
        while at < sorted.len() && sorted[at] >= value
            invariant
                0 <= at <= sorted@.len(),
                forall|k: int| 0 <= k < at ==> sorted@[k] >= value,
            decreases sorted@.len() - at,
        {
            at += 1;
        }
        proof {
            lemma_insert_to_multiset(sorted@, at as int, value);
            assert(values@.take(i as int + 1) =~= values@.take(i as int).push(value));
            to_multiset_build(values@.take(i as int), value);
        }
        sorted.insert(at, value);
        i += 1;
    }
    assert(values@.take(i as int) =~= values@);
    proof {
        lemma_descending_unique(sorted@, values@);
    }
    sorted
}

/// A descending sequence starts with its largest element.
pub proof fn lemma_descending_first_is_max(sorted: Seq<u32>, values: Seq<u32>)
    requires
        descending(sorted),
        sorted.to_multiset() == values.to_multiset(),
        values.len() > 0,
    ensures
        sorted.len() == values.len(),
        values.contains(sorted[0]),
        forall|i: int| 0 <= i < values.len() ==> values[i] <= sorted[0],
{
    sorted.to_multiset_ensures();
    values.to_multiset_ensures();
    assert(sorted.contains(sorted[0]));
    assert(values.to_multiset().count(sorted[0]) > 0);
    assert forall|i: int| 0 <= i < values.len() implies values[i] <= sorted[0] by {
        assert(values.contains(values[i]));
        assert(sorted.to_multiset().count(values[i]) > 0);
        assert(sorted.contains(values[i]));
        let k = choose|k: int| 0 <= k < sorted.len() && sorted[k] == values[i];
        assert(sorted[0] >= sorted[k]);
    }
}

} // verus!
