//! Looking through candidates in order.

use vstd::prelude::*;

verus! {

/// Whether flag `i` is the first that is set.
pub open spec fn is_first(flags: Seq<bool>, i: int) -> bool {
    &&& 0 <= i < flags.len()
    &&& flags[i]
    &&& forall|j: int| 0 <= j < i ==> !#[trigger] flags[j]
}

/// Whether no flag is set.
pub open spec fn none_set(flags: Seq<bool>) -> bool {
    forall|i: int| 0 <= i < flags.len() ==> !#[trigger] flags[i]
}

/// The first flag that is set.
pub open spec fn first_set(flags: Seq<bool>) -> Option<int> {
    if none_set(flags) {
        None
    } else {
        Some(choose|i: int| is_first(flags, i))
    }
}

/// Where a flag is set, there is one first flag that is.
proof fn lemma_first_set(flags: Seq<bool>, i: int)
    requires
        is_first(flags, i),
    ensures
        first_set(flags) == Some(i),
{
    assert(flags[i]);
    let j = choose|j: int| is_first(flags, j);
    assert(is_first(flags, j));
    assert(flags[j]);
}

/// The first flag that is set.
pub fn first(flags: &Vec<bool>) -> (r: Option<usize>)
    ensures
        r is None <==> first_set(flags@) is None,
        r matches Some(i) ==> first_set(flags@) == Some(i as int) && is_first(flags@, i as int),
{
    let mut i: usize = 0;
    while i < flags.len()
        invariant
            i <= flags@.len(),
            forall|j: int| 0 <= j < i ==> !#[trigger] flags@[j],
        decreases flags.len() - i,
    {
        if flags[i] {
            proof {
                lemma_first_set(flags@, i as int);
            }
            return Some(i);
        }
        i = i + 1;
    }
    None
}

/// A candidate is chosen exactly if it is there and none before it is.
pub proof fn the_first_that_is_there_is_chosen(flags: Seq<bool>, i: int)
    ensures
        first_set(flags) == Some(i) <==> is_first(flags, i),
{
    if is_first(flags, i) {
        lemma_first_set(flags, i);
    }
    if first_set(flags) == Some(i) {
        let k = choose|k: int| 0 <= k < flags.len() && #[trigger] flags[k];
        let f = lemma_some_first(flags, k);
        lemma_first_set(flags, f);
    }
}

/// Where flag `k` is set, some flag is the first.
proof fn lemma_some_first(flags: Seq<bool>, k: int) -> (f: int)
    requires
        0 <= k < flags.len(),
        flags[k],
    ensures
        is_first(flags, f),
    decreases k,
{
    if exists|j: int| 0 <= j < k && #[trigger] flags[j] {
        let j = choose|j: int| 0 <= j < k && #[trigger] flags[j];
        lemma_some_first(flags, j)
    } else {
        k
    }
}

} // verus!
