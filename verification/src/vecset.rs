//! Finite sets held as duplicate-free vectors, with the membership, union
//! and difference-count operations the deduplication algorithm needs.

use vstd::prelude::*;

use crate::{ShmSegment, SwapSlot};

verus! {

broadcast use vstd::seq_lib::group_seq_properties, vstd::set_lib::group_set_lib_default, vstd::set::group_set_axioms;

/// Whether `x` occurs in `v`.
pub fn pfn_contains(v: &Vec<u64>, x: u64) -> (r: bool)
    ensures
        r == v@.contains(x),
{
    let n = v.len();
    let mut i: usize = 0;
    while i < n
        invariant
            0 <= i <= n,
            n == v@.len(),
            forall|j: int| 0 <= j < i ==> v@[j] != x,
        decreases n - i,
    {
        if v[i] == x {
            return true;
        }
        i = i + 1;
    }
    false
}

/// Extend the duplicate-free vector `dst` with every element of `src` it
/// does not yet hold: afterwards `dst` holds the union of the two sets.
pub fn pfn_union_into(dst: &mut Vec<u64>, src: &Vec<u64>)
    requires
        old(dst)@.no_duplicates(),
    ensures
        final(dst)@.no_duplicates(),
        final(dst)@.to_set() == old(dst)@.to_set().union(src@.to_set()),
{
    let n = src.len();
    let mut i: usize = 0;
    while i < n
        invariant
            0 <= i <= n,
            n == src@.len(),
            dst@.no_duplicates(),
            dst@.to_set() == old(dst)@.to_set().union(src@.take(i as int).to_set()),
        decreases n - i,
    {
        proof {
            assert(src@.take(i + 1).drop_last() =~= src@.take(i as int));
            assert(src@.take(i + 1).last() == src@[i as int]);
            assert(src@.take(i + 1).to_set() =~= src@.take(i as int).to_set().insert(src@[i as int]));
        }
        let ghost pre = dst@;
        let x = src[i];
        if !pfn_contains(dst, x) {
            dst.push(x);
            proof {
                assert(dst@.drop_last() =~= pre);
                assert(dst@.to_set() =~= pre.to_set().insert(x));
            }
        }
        proof {
            assert(dst@.to_set() =~= old(dst)@.to_set().union(src@.take(i + 1).to_set()));
        }
        i = i + 1;
    }
    proof {
        assert(src@.take(n as int) =~= src@);
    }
}

/// How many elements of the duplicate-free vector `a` are absent from `b`:
/// the cardinality of the set difference.
pub fn pfn_diff_count(a: &Vec<u64>, b: &Vec<u64>) -> (n: usize)
    requires
        a@.no_duplicates(),
    ensures
        n == a@.to_set().difference(b@.to_set()).len(),
{
    let len = a.len();
    let mut i: usize = 0;
    let mut count: usize = 0;
    proof {
        assert(a@.take(0).to_set() =~= Set::<u64>::empty());
        assert(Set::<u64>::empty().difference(b@.to_set()) =~= Set::<u64>::empty());
    }
    while i < len
        invariant
            0 <= i <= len,
            len == a@.len(),
            a@.no_duplicates(),
            count <= i,
            count == a@.take(i as int).to_set().difference(b@.to_set()).len(),
        decreases len - i,
    {
        proof {
            assert(a@.take(i + 1).drop_last() =~= a@.take(i as int));
            assert(a@.take(i + 1).last() == a@[i as int]);
            assert(a@.take(i + 1).to_set() =~= a@.take(i as int).to_set().insert(a@[i as int]));
            assert(!a@.take(i as int).contains(a@[i as int]));
            if b@.to_set().contains(a@[i as int]) {
                assert(a@.take(i + 1).to_set().difference(b@.to_set()) =~= a@.take(
                    i as int,
                ).to_set().difference(b@.to_set()));
            } else {
                assert(a@.take(i + 1).to_set().difference(b@.to_set()) =~= a@.take(
                    i as int,
                ).to_set().difference(b@.to_set()).insert(a@[i as int]));
            }
        }
        let x = a[i];
        if !pfn_contains(b, x) {
            count = count + 1;
        }
        i = i + 1;
    }
    proof {
        assert(a@.take(len as int) =~= a@);
    }
    count
}

/// Whether `x` occurs in `v`.
pub fn slot_contains(v: &Vec<SwapSlot>, x: SwapSlot) -> (r: bool)
    ensures
        r == v@.contains(x),
{
    let n = v.len();
    let mut i: usize = 0;
    while i < n
        invariant
            0 <= i <= n,
            n == v@.len(),
            forall|j: int| 0 <= j < i ==> v@[j] != x,
        decreases n - i,
    {
        if v[i] == x {
            return true;
        }
        i = i + 1;
    }
    false
}

/// Extend the duplicate-free vector `dst` with every element of `src` it
/// does not yet hold: afterwards `dst` holds the union of the two sets.
pub fn slot_union_into(dst: &mut Vec<SwapSlot>, src: &Vec<SwapSlot>)
    requires
        old(dst)@.no_duplicates(),
    ensures
        final(dst)@.no_duplicates(),
        final(dst)@.to_set() == old(dst)@.to_set().union(src@.to_set()),
{
    let n = src.len();
    let mut i: usize = 0;
    while i < n
        invariant
            0 <= i <= n,
            n == src@.len(),
            dst@.no_duplicates(),
            dst@.to_set() == old(dst)@.to_set().union(src@.take(i as int).to_set()),
        decreases n - i,
    {
        proof {
            assert(src@.take(i + 1).drop_last() =~= src@.take(i as int));
            assert(src@.take(i + 1).last() == src@[i as int]);
            assert(src@.take(i + 1).to_set() =~= src@.take(i as int).to_set().insert(src@[i as int]));
        }
        let ghost pre = dst@;
        let x = src[i];
        if !slot_contains(dst, x) {
            dst.push(x);
            proof {
                assert(dst@.drop_last() =~= pre);
                assert(dst@.to_set() =~= pre.to_set().insert(x));
            }
        }
        proof {
            assert(dst@.to_set() =~= old(dst)@.to_set().union(src@.take(i + 1).to_set()));
        }
        i = i + 1;
    }
    proof {
        assert(src@.take(n as int) =~= src@);
    }
}

/// How many elements of the duplicate-free vector `a` are absent from `b`:
/// the cardinality of the set difference.
pub fn slot_diff_count(a: &Vec<SwapSlot>, b: &Vec<SwapSlot>) -> (n: usize)
    requires
        a@.no_duplicates(),
    ensures
        n == a@.to_set().difference(b@.to_set()).len(),
{
    let len = a.len();
    let mut i: usize = 0;
    let mut count: usize = 0;
    proof {
        assert(a@.take(0).to_set() =~= Set::<SwapSlot>::empty());
        assert(Set::<SwapSlot>::empty().difference(b@.to_set()) =~= Set::<SwapSlot>::empty());
    }
    while i < len
        invariant
            0 <= i <= len,
            len == a@.len(),
            a@.no_duplicates(),
            count <= i,
            count == a@.take(i as int).to_set().difference(b@.to_set()).len(),
        decreases len - i,
    {
        proof {
            assert(a@.take(i + 1).drop_last() =~= a@.take(i as int));
            assert(a@.take(i + 1).last() == a@[i as int]);
            assert(a@.take(i + 1).to_set() =~= a@.take(i as int).to_set().insert(a@[i as int]));
            assert(!a@.take(i as int).contains(a@[i as int]));
            if b@.to_set().contains(a@[i as int]) {
                assert(a@.take(i + 1).to_set().difference(b@.to_set()) =~= a@.take(
                    i as int,
                ).to_set().difference(b@.to_set()));
            } else {
                assert(a@.take(i + 1).to_set().difference(b@.to_set()) =~= a@.take(
                    i as int,
                ).to_set().difference(b@.to_set()).insert(a@[i as int]));
            }
        }
        let x = a[i];
        if !slot_contains(b, x) {
            count = count + 1;
        }
        i = i + 1;
    }
    proof {
        assert(a@.take(len as int) =~= a@);
    }
    count
}

/// Whether `x` occurs in `v`.
pub fn seg_contains(v: &Vec<ShmSegment>, x: ShmSegment) -> (r: bool)
    ensures
        r == v@.contains(x),
{
    let n = v.len();
    let mut i: usize = 0;
    while i < n
        invariant
            0 <= i <= n,
            n == v@.len(),
            forall|j: int| 0 <= j < i ==> v@[j] != x,
        decreases n - i,
    {
        if v[i] == x {
            return true;
        }
        i = i + 1;
    }
    false
}

/// Extend the duplicate-free vector `dst` with every element of `src` it
/// does not yet hold: afterwards `dst` holds the union of the two sets.
pub fn seg_union_into(dst: &mut Vec<ShmSegment>, src: &Vec<ShmSegment>)
    requires
        old(dst)@.no_duplicates(),
    ensures
        final(dst)@.no_duplicates(),
        final(dst)@.to_set() == old(dst)@.to_set().union(src@.to_set()),
{
    let n = src.len();
    let mut i: usize = 0;
    while i < n
        invariant
            0 <= i <= n,
            n == src@.len(),
            dst@.no_duplicates(),
            dst@.to_set() == old(dst)@.to_set().union(src@.take(i as int).to_set()),
        decreases n - i,
    {
        proof {
            assert(src@.take(i + 1).drop_last() =~= src@.take(i as int));
            assert(src@.take(i + 1).last() == src@[i as int]);
            assert(src@.take(i + 1).to_set() =~= src@.take(i as int).to_set().insert(src@[i as int]));
        }
        let ghost pre = dst@;
        let x = src[i];
        if !seg_contains(dst, x) {
            dst.push(x);
            proof {
                assert(dst@.drop_last() =~= pre);
                assert(dst@.to_set() =~= pre.to_set().insert(x));
            }
        }
        proof {
            assert(dst@.to_set() =~= old(dst)@.to_set().union(src@.take(i + 1).to_set()));
        }
        i = i + 1;
    }
    proof {
        assert(src@.take(n as int) =~= src@);
    }
}

} // verus!
