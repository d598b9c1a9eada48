//! The mathematical model of a page: boxes, the two generations as maps, and
//! the relations that say which placement an insertion may choose.
use vstd::prelude::*;
use crate::extent::Extent;

verus! {

/// The placement record of one handle: a box `[position, position + size)`.
#[derive(Clone, Copy, PartialEq, Eq, Structural, Debug)]
pub struct AtlasInfo {
    pub size: Extent,
    pub position: Extent,
}

/// What an insertion returned.
#[derive(Clone, Copy, PartialEq, Eq, Structural, Debug)]
pub enum Slot {
    /// No candidate point admits the box.
    NoFit,
    /// The box was freshly placed at this position.
    New(Extent),
    /// The handle already had this position, live or revived.
    Existing(Extent),
}

/// Why an insertion was rejected before any search.
#[derive(Clone, Copy, PartialEq, Eq, Structural, Debug)]
pub enum InsertError {
    /// Some lane of the requested size is zero.
    DegenerateSize,
    /// The handle is live with another size than the requested one.
    SizeMismatch,
}

/// The box of the given size at the given position.
pub open spec fn placed(position: Extent, size: Extent) -> AtlasInfo {
    AtlasInfo { size, position }
}

impl AtlasInfo {
    /// Near face along an axis.
    pub open spec fn lo(self, axis: int) -> int {
        self.position.lane(axis)
    }

    /// Far face along an axis.
    pub open spec fn hi(self, axis: int) -> int {
        self.position.lane(axis) + self.size.lane(axis)
    }

    /// The box lies inside `[0, dim)` on every axis.
    pub open spec fn within(self, dim: Extent) -> bool {
        &&& self.hi(0) <= dim.x
        &&& self.hi(1) <= dim.y
        &&& self.hi(2) <= dim.z
    }

    /// The projections of the two boxes on one axis intersect.
    pub open spec fn meets(self, other: AtlasInfo, axis: int) -> bool {
        self.lo(axis) < other.hi(axis) && self.hi(axis) > other.lo(axis)
    }

    /// The two boxes intersect: their projections intersect on all axes.
    pub open spec fn overlaps(self, other: AtlasInfo) -> bool {
        self.meets(other, 0) && self.meets(other, 1) && self.meets(other, 2)
    }

    /// `self` obstructs the box `b` along `axis`: the projections intersect
    /// on the two other axes and `self` begins strictly beyond the far face
    /// of `b`.
    pub open spec fn presses(self, b: AtlasInfo, axis: int) -> bool {
        &&& axis == 0 || b.meets(self, 0)
        &&& axis == 1 || b.meets(self, 1)
        &&& axis == 2 || b.meets(self, 2)
        &&& self.lo(axis) > b.hi(axis)
    }

    /// Free room between the far face of `b` and the near face of `self`.
    pub open spec fn gap(self, b: AtlasInfo, axis: int) -> int {
        self.lo(axis) - b.hi(axis)
    }

    /// The position advanced by the size along one axis only.
    pub open spec fn corner(self, axis: int) -> Extent {
        if axis == 0 {
            Extent { x: (self.position.x + self.size.x) as u32, ..self.position }
        } else if axis == 1 {
            Extent { y: (self.position.y + self.size.y) as u32, ..self.position }
        } else {
            Extent { z: (self.position.z + self.size.z) as u32, ..self.position }
        }
    }
}

/// A sequence that lists every key of the map exactly once.
pub open spec fn is_order<H>(ks: Seq<H>, m: Map<H, AtlasInfo>) -> bool {
    &&& ks.no_duplicates()
    &&& forall|i: int| 0 <= i < ks.len() ==> m.contains_key(#[trigger] ks[i])
    &&& forall|h: H| m.contains_key(h) ==> ks.contains(h)
}

/// The three advancing corners of each listed entry, in x, y, z order.
pub open spec fn corners<H>(m: Map<H, AtlasInfo>, ks: Seq<H>) -> Seq<Extent> {
    Seq::new(3 * ks.len(), |i: int| m[ks[i / 3]].corner(i % 3))
}

/// A page as a mathematical value.
#[verifier::reject_recursive_types(H)]
pub struct PageModel<H> {
    /// The dimensions of the volume.
    pub dim: Extent,
    /// Placements in use: hard obstacles.
    pub live: Map<H, AtlasInfo>,
    /// Placements kept for revival: evicted on demand.
    pub dead: Map<H, AtlasInfo>,
}

impl<H> PageModel<H> {
    /// The page of the given dimensions that holds nothing.
    pub open spec fn empty(dim: Extent) -> Self {
        PageModel { dim, live: Map::empty(), dead: Map::empty() }
    }

    /// No handle is in both generations.
    pub open spec fn generations_disjoint(self) -> bool {
        forall|h: H| !(self.live.contains_key(h) && #[trigger] self.dead.contains_key(h))
    }

    /// Every entry, live or dead, ends inside the page on every axis.
    pub open spec fn entries_in_bounds(self) -> bool {
        &&& forall|h: H| #[trigger] self.live.contains_key(h) ==> self.live[h].within(self.dim)
        &&& forall|h: H| #[trigger] self.dead.contains_key(h) ==> self.dead[h].within(self.dim)
    }

    /// Every entry, live or dead, has a size of at least one on every axis.
    pub open spec fn sizes_positive(self) -> bool {
        &&& forall|h: H| #[trigger] self.live.contains_key(h) ==> self.live[h].size.positive()
        &&& forall|h: H| #[trigger] self.dead.contains_key(h) ==> self.dead[h].size.positive()
    }

    /// No two live entries intersect.
    pub open spec fn live_disjoint(self) -> bool {
        forall|a: H, b: H|
            #[trigger] self.live.contains_key(a) && #[trigger] self.live.contains_key(b) && a != b
                ==> !self.live[a].overlaps(self.live[b])
    }

    /// No dead entry intersects a live entry or another dead entry, so that
    /// reviving one never breaks `live_disjoint`.
    pub open spec fn dead_clear(self) -> bool {
        &&& forall|d: H, h: H|
            #[trigger] self.dead.contains_key(d) && #[trigger] self.live.contains_key(h)
                ==> !self.dead[d].overlaps(self.live[h])
        &&& forall|a: H, b: H|
            #[trigger] self.dead.contains_key(a) && #[trigger] self.dead.contains_key(b) && a != b
                ==> !self.dead[a].overlaps(self.dead[b])
    }

    /// The invariant of a page.
    pub open spec fn wf(self) -> bool {
        &&& self.live.dom().finite()
        &&& self.dead.dom().finite()
        &&& self.generations_disjoint()
        &&& self.entries_in_bounds()
        &&& self.sizes_positive()
        &&& self.live_disjoint()
        &&& self.dead_clear()
    }

    /// The box fits in the page and intersects no live entry.
    pub open spec fn feasible(self, b: AtlasInfo) -> bool {
        &&& b.within(self.dim)
        &&& forall|h: H| #[trigger] self.live.contains_key(h) ==> !b.overlaps(self.live[h])
    }

    /// The dead handles whose entries intersect the box.
    pub open spec fn casualties(self, b: AtlasInfo) -> Set<H> {
        Set::new(|h: H| self.dead.contains_key(h) && b.overlaps(self.dead[h]))
    }

    /// Room from the far face of the box to the page edge along an axis.
    pub open spec fn edge(self, b: AtlasInfo, axis: int) -> int {
        self.dim.lane(axis) - b.hi(axis)
    }

    /// `d` is the least of the room to the page edge and the gaps to the live
    /// entries that press on the box along the axis.
    pub open spec fn is_slack(self, b: AtlasInfo, axis: int, d: int) -> bool {
        &&& d <= self.edge(b, axis)
        &&& forall|h: H| #[trigger]
            self.live.contains_key(h) && self.live[h].presses(b, axis) ==> d <= self.live[h].gap(
                b,
                axis,
            )
        &&& d == self.edge(b, axis) || exists|h: H| #[trigger]
            self.live.contains_key(h) && self.live[h].presses(b, axis) && self.live[h].gap(b, axis)
                == d
    }

    /// Distance from the far face of the box to the nearest obstruction, or
    /// to the page edge, along an axis.
    pub open spec fn slack(self, b: AtlasInfo, axis: int) -> int {
        choose|d: int| self.is_slack(b, axis, d)
    }

    /// The packing cost of the box: the slack summed over the three axes.
    pub open spec fn cost(self, b: AtlasInfo) -> int {
        self.slack(b, 0) + self.slack(b, 1) + self.slack(b, 2)
    }

    /// `a` ranks strictly before `b`: fewer casualties, or as many and a
    /// lower cost.
    pub open spec fn better(self, a: AtlasInfo, b: AtlasInfo) -> bool {
        let na = self.casualties(a).len();
        let nb = self.casualties(b).len();
        na < nb || (na == nb && self.cost(a) < self.cost(b))
    }

    /// The point is the origin or an advancing corner of some entry.
    pub open spec fn is_candidate(self, p: Extent) -> bool {
        ||| p == Extent::origin()
        ||| exists|h: H, axis: int| #[trigger]
            self.live.contains_key(h) && 0 <= axis < 3 && p == #[trigger] self.live[h].corner(axis)
        ||| exists|h: H, axis: int| #[trigger]
            self.dead.contains_key(h) && 0 <= axis < 3 && p == #[trigger] self.dead[h].corner(axis)
    }

    /// The candidate points in the order of evaluation, for given orders of
    /// the two generations: the origin, then the corners of the live
    /// entries, then those of the dead entries.
    pub open spec fn candidates(self, live_order: Seq<H>, dead_order: Seq<H>) -> Seq<Extent> {
        seq![Extent::origin()] + corners(self.live, live_order) + corners(
            self.dead,
            dead_order,
        )
    }

    /// `pts[i]` is the first point of the sequence that no other feasible
    /// point of it ranks strictly before.
    pub open spec fn first_best(self, pts: Seq<Extent>, size: Extent, i: int) -> bool {
        &&& 0 <= i < pts.len()
        &&& self.feasible(placed(pts[i], size))
        &&& forall|j: int|
            0 <= j < i && self.feasible(placed(#[trigger] pts[j], size)) ==> self.better(
                placed(pts[i], size),
                placed(pts[j], size),
            )
        &&& forall|j: int|
            i < j < pts.len() && self.feasible(placed(#[trigger] pts[j], size)) ==> !self.better(
                placed(pts[j], size),
                placed(pts[i], size),
            )
    }

    /// No point of the sequence admits a box of the given size.
    pub open spec fn none_fits(self, pts: Seq<Extent>, size: Extent) -> bool {
        forall|j: int| 0 <= j < pts.len() ==> !self.feasible(placed(#[trigger] pts[j], size))
    }

    /// The search may place a box of the given size at `p`: for some order
    /// in which the two generations are walked, `p` is the first best of the
    /// candidate points.
    pub open spec fn picks(self, size: Extent, p: Extent) -> bool {
        exists|live_order: Seq<H>, dead_order: Seq<H>, i: int|
            #![trigger self.candidates(live_order, dead_order)[i]]
            {
                &&& is_order(live_order, self.live)
                &&& is_order(dead_order, self.dead)
                &&& self.first_best(self.candidates(live_order, dead_order), size, i)
                &&& self.candidates(live_order, dead_order)[i] == p
            }
    }

    /// No candidate point admits a box of the given size.
    pub open spec fn no_room(self, size: Extent) -> bool {
        forall|p: Extent| #[trigger] self.is_candidate(p) ==> !self.feasible(placed(p, size))
    }

    /// The handle's live entry, if any, becomes dead.
    pub open spec fn remove(self, h: H) -> Self {
        if self.live.contains_key(h) {
            PageModel {
                dim: self.dim,
                live: self.live.remove(h),
                dead: self.dead.insert(h, self.live[h]),
            }
        } else {
            self
        }
    }

    /// The handle leaves both generations.
    pub open spec fn purge(self, h: H) -> Self {
        PageModel { dim: self.dim, live: self.live.remove(h), dead: self.dead.remove(h) }
    }

    /// Every live entry becomes dead.
    pub open spec fn remove_all(self) -> Self {
        PageModel {
            dim: self.dim,
            live: Map::empty(),
            dead: self.dead.union_prefer_right(self.live),
        }
    }

    /// Both generations are emptied.
    pub open spec fn purge_all(self) -> Self {
        PageModel::empty(self.dim)
    }

    /// The handle's dead entry becomes live again, unchanged.
    pub open spec fn revive(self, h: H) -> Self {
        PageModel {
            dim: self.dim,
            live: self.live.insert(h, self.dead[h]),
            dead: self.dead.remove(h),
        }
    }

    /// The handle's dead entry, if any, is dropped.
    pub open spec fn forget(self, h: H) -> Self {
        PageModel { dim: self.dim, live: self.live, dead: self.dead.remove(h) }
    }

    /// What one insertion owes: the answer `r` and the page `after` it, for
    /// the page `self` before it.
    ///
    /// A size with a zero lane is rejected. A live handle keeps its position
    /// if the size is its own and is rejected otherwise. A dead handle of
    /// that size is revived where it was. In every other case a dead entry
    /// of the handle is dropped and the search runs: it fails exactly when
    /// no candidate point admits the box, and otherwise commits the first
    /// best candidate and evicts the dead entries under it.
    pub open spec fn inserts(
        self,
        h: H,
        size: Extent,
        r: Result<Slot, InsertError>,
        after: Self,
    ) -> bool {
        if !size.positive() {
            r == Err::<Slot, InsertError>(InsertError::DegenerateSize) && after == self
        } else if self.live.contains_key(h) {
            if self.live[h].size == size {
                r == Ok::<Slot, InsertError>(Slot::Existing(self.live[h].position)) && after == self
            } else {
                r == Err::<Slot, InsertError>(InsertError::SizeMismatch) && after == self
            }
        } else if self.dead.contains_key(h) && self.dead[h].size == size {
            r == Ok::<Slot, InsertError>(Slot::Existing(self.dead[h].position)) && after
                == self.revive(h)
        } else {
            let base = self.forget(h);
            match r {
                Ok(Slot::NoFit) => base.no_room(size) && after == base,
                Ok(Slot::New(p)) => base.picks(size, p) && after == base.place(h, placed(p, size)),
                _ => false,
            }
        }
    }

    /// The handle becomes live with the given box, and every dead entry that
    /// the box intersects is evicted.
    pub open spec fn place(self, h: H, b: AtlasInfo) -> Self {
        PageModel {
            dim: self.dim,
            live: self.live.insert(h, b),
            dead: self.dead.remove_keys(self.casualties(b)),
        }
    }
}

} // verus!
