//! The bounding region set: a covering collection of axis-aligned boxes with
//! inclusive integer corners, kept free of nested boxes.
//!
//! Whenever a new box arrives it is dropped if an existing box already
//! contains it; otherwise every existing box it contains is dropped and the
//! new box is added.  Two partially overlapping boxes are deliberately kept
//! as two entries: the set is a covering approximation, not a rectangle
//! decomposition.

use vstd::prelude::*;
use crate::math::V3;

verus! {

/// An axis-aligned box with inclusive minimum and maximum corners.
#[derive(Clone, Copy, PartialEq, Eq, Structural, Debug)]
pub struct Aabb {
    pub min: V3,
    pub max: V3,
}

impl Aabb {
    /// `o` lies fully inside `self` (inclusive corners).
    pub open spec fn spec_contains_aabb(self, o: Aabb) -> bool {
        &&& self.min.x <= o.min.x && o.max.x <= self.max.x
        &&& self.min.y <= o.min.y && o.max.y <= self.max.y
        &&& self.min.z <= o.min.z && o.max.z <= self.max.z
    }

    /// `p` lies inside `self` (inclusive corners).
    pub open spec fn spec_contains_point(self, p: V3) -> bool {
        &&& self.min.x <= p.x <= self.max.x
        &&& self.min.y <= p.y <= self.max.y
        &&& self.min.z <= p.z <= self.max.z
    }

    pub fn contains_aabb(&self, o: &Aabb) -> (r: bool)
        ensures
            r == self.spec_contains_aabb(*o),
    {
        self.min.x <= o.min.x && o.max.x <= self.max.x && self.min.y <= o.min.y && o.max.y
            <= self.max.y && self.min.z <= o.min.z && o.max.z <= self.max.z
    }

    pub fn contains_point(&self, p: V3) -> (r: bool)
        ensures
            r == self.spec_contains_point(p),
    {
        self.min.x <= p.x && p.x <= self.max.x && self.min.y <= p.y && p.y <= self.max.y
            && self.min.z <= p.z && p.z <= self.max.z
    }
}

/// One box lies strictly inside another: contained and not equal.
pub open spec fn strict_subset(a: Aabb, b: Aabb) -> bool {
    b.spec_contains_aabb(a) && a != b
}

/// The merge invariant: no box of the set is a strict subset of another.
pub open spec fn region_set_minimal(s: Seq<Aabb>) -> bool {
    forall|i: int, j: int|
        0 <= i < s.len() && 0 <= j < s.len() && i != j ==> !strict_subset(s[i], s[j])
}

/// Whether some box of the set contains `p`.
pub open spec fn regions_cover_point(s: Seq<Aabb>, p: V3) -> bool {
    exists|i: int| 0 <= i < s.len() && s[i].spec_contains_point(p)
}

/// Whether any box of the set contains the point; used to filter grid cells
/// to those inside a placed structure.
pub fn regions_contain(regions: &Vec<Aabb>, p: V3) -> (r: bool)
    ensures
        r == regions_cover_point(regions@, p),
{
    let n = regions.len();
    for j in 0..n
        invariant
            n == regions@.len(),
            forall|i: int| 0 <= i < j ==> !(#[trigger] regions@[i]).spec_contains_point(p),
    {
        if regions[j].contains_point(p) {
            proof {
                assert(regions@[j as int].spec_contains_point(p));
            }
            return true;
        }
    }
    false
}

/// The boxes of `s` that the new box does not contain, in order.
pub open spec fn drop_contained(s: Seq<Aabb>, n: Aabb) -> Seq<Aabb>
    decreases s.len(),
{
    if s.len() == 0 {
        Seq::empty()
    } else if n.spec_contains_aabb(s.last()) {
        drop_contained(s.drop_last(), n)
    } else {
        drop_contained(s.drop_last(), n).push(s.last())
    }
}

/// What inserting a box into the region set yields: unchanged if an existing
/// box covers it, otherwise the set loses every box the new one contains and
/// gains the new one.
pub open spec fn spec_insert_region(s: Seq<Aabb>, n: Aabb) -> Seq<Aabb> {
    if exists|i: int| 0 <= i < s.len() && s[i].spec_contains_aabb(n) {
        s
    } else {
        drop_contained(s, n).push(n)
    }
}

/// Every box kept by `drop_contained` is a box of the input that the new box
/// does not contain.
proof fn lemma_drop_contained_elems(s: Seq<Aabb>, n: Aabb)
    ensures
        forall|k: int|
            0 <= k < drop_contained(s, n).len() ==> !n.spec_contains_aabb(
                #[trigger] drop_contained(s, n)[k],
            ) && exists|i: int| 0 <= i < s.len() && s[i] == drop_contained(s, n)[k],
    decreases s.len(),
{
    if s.len() > 0 {
        lemma_drop_contained_elems(s.drop_last(), n);
        assert forall|k: int| 0 <= k < drop_contained(s, n).len() implies !n.spec_contains_aabb(
            #[trigger] drop_contained(s, n)[k],
        ) && exists|i: int| 0 <= i < s.len() && s[i] == drop_contained(s, n)[k] by {
            let prev = drop_contained(s.drop_last(), n);
            if k < prev.len() {
                let i = choose|i: int| 0 <= i < s.drop_last().len() && s.drop_last()[i] == prev[k];
                assert(s[i] == drop_contained(s, n)[k]);
            } else {
                assert(s[s.len() - 1] == drop_contained(s, n)[k]);
            }
        }
    }
}

/// Merges a new box into the region set.
///
/// The set keeps its merge invariant, and afterwards some box of the set
/// contains the new box, so the set still covers everything it covered
/// before together with the new box.
pub fn insert_region(regions: &mut Vec<Aabb>, n: Aabb)
    requires
        region_set_minimal(old(regions)@),
    ensures
        final(regions)@ == spec_insert_region(old(regions)@, n),
        region_set_minimal(final(regions)@),
        exists|i: int|
            0 <= i < final(regions)@.len() && (#[trigger] final(regions)@[i]).spec_contains_aabb(n),
{
    let ghost s = regions@;
    let len = regions.len();
    for j in 0..len
        invariant
            regions@ == s,
            s == old(regions)@,
            region_set_minimal(s),
            len == s.len(),
            forall|i: int| 0 <= i < j ==> !(#[trigger] s[i]).spec_contains_aabb(n),
    {
        if regions[j].contains_aabb(&n) {
            proof {
                assert(s[j as int].spec_contains_aabb(n));
            }
            return ;
        }
    }
    let mut kept: Vec<Aabb> = Vec::new();
    for j in 0..len
        invariant
            regions@ == s,
            s == old(regions)@,
            region_set_minimal(s),
            len == s.len(),
            forall|i: int| 0 <= i < s.len() ==> !(#[trigger] s[i]).spec_contains_aabb(n),
            kept@ == drop_contained(s.take(j as int), n),
    {
        proof {
            assert(s.take(j + 1).drop_last() =~= s.take(j as int));
            assert(s.take(j + 1).last() == s[j as int]);
        }
        if !n.contains_aabb(&regions[j]) {
            kept.push(regions[j]);
        }
    }
    proof {
        assert(s.take(len as int) =~= s);
    }
    kept.push(n);
    let ghost out = kept@;
    proof {
        lemma_drop_contained_elems(s, n);
        assert(out.last() == n);
        assert(n.spec_contains_aabb(n));
        assert forall|i: int, j: int|
            0 <= i < out.len() && 0 <= j < out.len() && i != j implies !strict_subset(
            out[i],
            out[j],
        ) by {
            let dc = drop_contained(s, n);
            if i < dc.len() && j < dc.len() {
                let i1 = choose|i1: int| 0 <= i1 < s.len() && s[i1] == dc[i];
                let j1 = choose|j1: int| 0 <= j1 < s.len() && s[j1] == dc[j];
                if i1 == j1 {
                    assert(out[i] == out[j]);
                } else {
                    assert(!strict_subset(s[i1], s[j1]));
                }
            } else if i < dc.len() {
                // out[j] is the new box: it contains no kept box, and no kept
                // box contains it (else the first loop would have returned).
                let i1 = choose|i1: int| 0 <= i1 < s.len() && s[i1] == dc[i];
                assert(!n.spec_contains_aabb(dc[i]));
                assert(!s[i1].spec_contains_aabb(n));
            } else if j < dc.len() {
                let j1 = choose|j1: int| 0 <= j1 < s.len() && s[j1] == dc[j];
                assert(!n.spec_contains_aabb(dc[j]));
                assert(!s[j1].spec_contains_aabb(n));
            }
        }
    }
    *regions = kept;
}

} // verus!
