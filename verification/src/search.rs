//! Finding the first element of a sequence with a given property.

use vstd::prelude::*;

verus! {

/// The least index at which an element of `items` satisfies `wanted`.
pub open spec fn first_index<A>(items: Seq<A>, wanted: spec_fn(A) -> bool) -> Option<int>
    decreases items.len(),
{
    if items.len() == 0 {
        None
    } else if wanted(items[0]) {
        Some(0)
    } else {
        match first_index(items.drop_first(), wanted) {
            Some(k) => Some(k + 1),
            None => None,
        }
    }
}

/// `first_index` names an index of a wanted element before which no element
/// is wanted, and nothing where no element is wanted.
pub proof fn lemma_first_index<A>(items: Seq<A>, wanted: spec_fn(A) -> bool)
    ensures
        match first_index(items, wanted) {
            Some(k) => 0 <= k < items.len() && wanted(items[k]) && forall|j: int|
                0 <= j < k ==> !wanted(#[trigger] items[j]),
            None => forall|j: int| 0 <= j < items.len() ==> !wanted(#[trigger] items[j]),
        },
    decreases items.len(),
{
    if items.len() > 0 && !wanted(items[0]) {
        let rest = items.drop_first();
        lemma_first_index(rest, wanted);
        match first_index(rest, wanted) {
            Some(k) => {
                assert forall|j: int| 0 <= j < k + 1 implies !wanted(#[trigger] items[j]) by {
                    if j > 0 {
                        assert(items[j] == rest[j - 1]);
                    }
                }
                assert(items[k + 1] == rest[k]);
            },
            None => {
                assert forall|j: int| 0 <= j < items.len() implies !wanted(
                    #[trigger] items[j],
                ) by {
                    if j > 0 {
                        assert(items[j] == rest[j - 1]);
                    }
                }
            },
        }
    }
}

/// An index `k` before which no element is wanted is the one `first_index`
/// names when the element at `k` is wanted; where `k` is the length, there
/// is none.
pub proof fn lemma_first_index_at<A>(items: Seq<A>, wanted: spec_fn(A) -> bool, k: int)
    requires
        0 <= k <= items.len(),
        forall|j: int| 0 <= j < k ==> !wanted(#[trigger] items[j]),
        k < items.len() ==> wanted(items[k]),
    ensures
        first_index(items, wanted) == (if k < items.len() {
            Some(k)
        } else {
            None
        }),
{
    lemma_first_index(items, wanted);
    match first_index(items, wanted) {
        Some(m) => {
            if m < k {
                assert(!wanted(items[m]));
            }
            if k < m {
                assert(!wanted(items[k]));
            }
        },
        None => {
            if k < items.len() {
                assert(!wanted(items[k]));
            }
        },
    }
}

} // verus!
