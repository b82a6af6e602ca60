//! Natural ordering of file names ("page2" before "page10"), as the natord
//! crate compares them.
use vstd::prelude::*;

verus! {

/// What `natord::compare` says of two strings: `-1` for less, `0` for equal,
/// `1` for greater.
pub uninterp spec fn natord_sign(a: Seq<char>, b: Seq<char>) -> i8;

/// Calls `natord::compare(a, b)` and gives its `Ordering` as `-1`, `0` or
/// `1`. The contract says only that the result is that of the named function
/// `natord_sign` on the two texts; nothing about natural order itself is
/// stated (neither that it is total nor that it is transitive).
#[verifier::external_body]
fn natord_compare(a: &str, b: &str) -> (r: i8)
    ensures
        r == natord_sign(a@, b@),
{
    match natord::compare(a, b) {
        std::cmp::Ordering::Less => -1,
        std::cmp::Ordering::Equal => 0,
        std::cmp::Ordering::Greater => 1,
    }
}

/// `a` may stand before `b`: natord does not put `a` after `b`, or it puts
/// `b` after `a`. For a consistent comparison this is `a <= b`.
pub open spec fn may_precede(a: Seq<char>, b: Seq<char>) -> bool {
    natord_sign(a, b) != 1 || natord_sign(b, a) == 1
}

/// `order` lists each index below `n` exactly once.
pub open spec fn is_permutation_of_range(order: Seq<usize>, n: nat) -> bool {
    &&& order.len() == n
    &&& forall|k: int| 0 <= k < order.len() ==> (#[trigger] order[k]) < n
    &&& forall|k: int, m: int| 0 <= k < m < order.len() ==> order[k] != order[m]
}

/// Neighbours in `order` are in natural order.
pub open spec fn naturally_sorted(keys: Seq<Seq<char>>, order: Seq<usize>) -> bool {
    forall|k: int|
        0 <= k < order.len() - 1 ==> may_precede(
            keys[#[trigger] order[k] as int],
            keys[order[k + 1] as int],
        )
}

/// A later index stands before an earlier one only where natord puts the
/// earlier one's key after the later one's: keys that compare equal keep
/// their order.
pub open spec fn stably_ordered(keys: Seq<Seq<char>>, order: Seq<usize>) -> bool {
    forall|k: int, m: int|
        0 <= k < m < order.len() && order[k] > order[m] ==> natord_sign(
            keys[#[trigger] order[m] as int],
            keys[#[trigger] order[k] as int],
        ) == 1
}

/// The order in which to store the images: a stable insertion sort of the
/// indices of `keys` by `natord::compare`. The result lists every index
/// once, each pair of neighbours is in natural order, and keys that compare
/// equal keep their order.
pub fn natural_order(keys: &Vec<String>) -> (order: Vec<usize>)
    ensures
        is_permutation_of_range(order@, keys.len() as nat),
        naturally_sorted(keys.deep_view(), order@),
        stably_ordered(keys.deep_view(), order@),
{
    let ghost kv = keys.deep_view();
    let mut order: Vec<usize> = Vec::new();
    let mut i: usize = 0;
    while i < keys.len()
        invariant
            i <= keys.len(),
            kv == keys.deep_view(),
            is_permutation_of_range(order@, i as nat),
            naturally_sorted(kv, order@),
            stably_ordered(kv, order@),
        decreases keys.len() - i,
    {
        let mut j = order.len();
        while j > 0 && natord_compare(keys[order[j - 1]].as_str(), keys[i].as_str()) == 1
            invariant
                j <= order.len(),
                i < keys.len(),
                kv == keys.deep_view(),
                is_permutation_of_range(order@, i as nat),
                forall|m: int| j <= m < order.len() ==> natord_sign(
                    kv[#[trigger] order@[m] as int],
                    kv[i as int],
                ) == 1,
            decreases j,
        {
            j = j - 1;
        }
        let ghost old_order = order@;
        proof {
            if j > 0 {
                assert(natord_sign(kv[old_order[j - 1] as int], kv[i as int]) != 1);
            }
        }
        order.insert(j, i);
        proof {
            let o = order@;
            assert(o =~= old_order.insert(j as int, i));
            assert forall|k: int| 0 <= k < o.len() implies (#[trigger] o[k]) < i + 1 by {
                if k < j {
                    assert(o[k] == old_order[k]);
                } else if k > j {
                    assert(o[k] == old_order[k - 1]);
                }
            }
            assert forall|k: int, m: int| 0 <= k < m < o.len() implies o[k] != o[m] by {
                if k < j {
                    assert(o[k] == old_order[k]);
                } else if k > j {
                    assert(o[k] == old_order[k - 1]);
                }
                if m < j {
                    assert(o[m] == old_order[m]);
                } else if m > j {
                    assert(o[m] == old_order[m - 1]);
                }
            }
            assert forall|k: int, m: int|
                0 <= k < m < o.len() && o[k] > o[m] implies natord_sign(
                kv[#[trigger] o[m] as int],
                kv[#[trigger] o[k] as int],
            ) == 1 by {
                if m < j {
                    assert(o[k] == old_order[k] && o[m] == old_order[m]);
                } else if m == j {
                    assert(o[k] == old_order[k]);
                } else if k < j {
                    assert(o[k] == old_order[k] && o[m] == old_order[m - 1]);
                } else if k == j {
                    assert(o[m] == old_order[m - 1]);
                } else {
                    assert(o[k] == old_order[k - 1] && o[m] == old_order[m - 1]);
                }
            }
            assert forall|k: int| 0 <= k < o.len() - 1 implies may_precede(
                kv[#[trigger] o[k] as int],
                kv[o[k + 1] as int],
            ) by {
                if k + 1 < j {
                    assert(o[k] == old_order[k] && o[k + 1] == old_order[k + 1]);
                } else if k + 1 == j {
                    assert(o[k] == old_order[k] && o[k + 1] == i);
                } else if k == j {
                    assert(o[k] == i && o[k + 1] == old_order[k]);
                } else {
                    assert(o[k] == old_order[k - 1] && o[k + 1] == old_order[k]);
                }
            }
        }
        i = i + 1;
    }
    order
}

} // verus!
