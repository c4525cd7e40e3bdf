//! Byte-level and hash-level comparison of tensors and models.

use vstd::prelude::*;

verus! {

/// The number of positions where two equal-length sequences agree.
pub open spec fn count_matching(a: Seq<u8>, b: Seq<u8>) -> int
    decreases a.len(),
{
    if a.len() == 0 || b.len() == 0 {
        0
    } else {
        count_matching(a.drop_last(), b.drop_last()) + (if a.last() == b.last() {
            1int
        } else {
            0int
        })
    }
}

/// Compares two byte slices: how many positions agree, and whether the
/// slices are equal. Slices of different lengths compare as `(0, false)`.
pub fn compare_slices(slice1: &[u8], slice2: &[u8]) -> (r: (usize, bool))
    ensures
        slice1@.len() != slice2@.len() ==> r == (0usize, false),
        slice1@.len() == slice2@.len() ==> r.0 == count_matching(slice1@, slice2@) && r.1 == (
        slice1@ == slice2@),
{
    if slice1.len() != slice2.len() {
        return (0, false);
    }
    let mut count_same: usize = 0;
    let mut all_same: bool = true;
    let mut t: usize = 0;
    proof {
        assert(slice1@.subrange(0, 0) =~= Seq::<u8>::empty());
        assert(slice2@.subrange(0, 0) =~= Seq::<u8>::empty());
    }
    while t < slice1.len()
        invariant
            t <= slice1@.len(),
            slice1@.len() == slice2@.len(),
            count_same == count_matching(slice1@.subrange(0, t as int), slice2@.subrange(0, t as int)),
            count_same <= t,
            all_same == (slice1@.subrange(0, t as int) == slice2@.subrange(0, t as int)),
        decreases slice1@.len() - t,
    {
        proof {
            assert(slice1@.subrange(0, t + 1 as int) =~= slice1@.subrange(0, t as int).push(
                slice1@[t as int],
            ));
            assert(slice2@.subrange(0, t + 1 as int) =~= slice2@.subrange(0, t as int).push(
                slice2@[t as int],
            ));
            assert(slice1@.subrange(0, t + 1 as int).drop_last() =~= slice1@.subrange(0, t as int));
            assert(slice2@.subrange(0, t + 1 as int).drop_last() =~= slice2@.subrange(0, t as int));
        }
        if slice1[t] == slice2[t] {
            count_same = count_same + 1;
        } else {
            all_same = false;
            proof {
                assert(slice1@.subrange(0, t + 1 as int)[t as int] != slice2@.subrange(
                    0,
                    t + 1 as int,
                )[t as int]);
            }
        }
        t = t + 1;
    }
    proof {
        assert(slice1@.subrange(0, slice1@.len() as int) =~= slice1@);
        assert(slice2@.subrange(0, slice2@.len() as int) =~= slice2@);
    }
    (count_same, all_same)
}

/// The number of entries of `a` whose value also occurs in `b`, counted
/// with multiplicity over `a`.
pub open spec fn count_common(a: Seq<Seq<char>>, b: Seq<Seq<char>>) -> int
    decreases a.len(),
{
    if a.len() == 0 {
        0
    } else {
        count_common(a.drop_last(), b) + (if b.contains(a.last()) {
            1int
        } else {
            0int
        })
    }
}

/// Counts the hashes of one model that also occur in another model's
/// hashes, with multiplicity over the first list.
pub fn count_common_hashes(a: &Vec<String>, b: &Vec<String>) -> (r: usize)
    ensures
        r == count_common(a@.map_values(|s: String| s@), b@.map_values(|s: String| s@)),
{
    let ghost av = a@.map_values(|s: String| s@);
    let ghost bv = b@.map_values(|s: String| s@);
    let mut count: usize = 0;
    let mut t: usize = 0;
    proof {
        assert(av.subrange(0, 0) =~= Seq::<Seq<char>>::empty());
    }
    while t < a.len()
        invariant
            t <= a@.len(),
            av == a@.map_values(|s: String| s@),
            bv == b@.map_values(|s: String| s@),
            count == count_common(av.subrange(0, t as int), bv),
            count <= t,
        decreases a@.len() - t,
    {
        proof {
            assert(av.subrange(0, t + 1 as int) =~= av.subrange(0, t as int).push(av[t as int]));
            assert(av.subrange(0, t + 1 as int).drop_last() =~= av.subrange(0, t as int));
            assert(av[t as int] == a@[t as int]@);
        }
        if crate::cache::is_cached(&a[t], b) {
            count = count + 1;
        }
        t = t + 1;
    }
    proof {
        assert(av.subrange(0, av.len() as int) =~= av);
    }
    count
}

} // verus!
