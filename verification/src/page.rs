//! The page itself: two hash maps behind the model, insertion and the
//! operations on the entry store.
use vstd::prelude::*;
use std::collections::HashMap;
use std::hash::Hash;
use vstd::std_specs::hash::obeys_key_model;
use crate::evaluate::measure_in;
use crate::extent::Extent;
use crate::listing::entries;
use crate::listing::keys;
use crate::listing::lemma_entry_at;
use crate::listing::lemma_listed;
use crate::listing::lists;
use crate::model::placed;
use crate::model::AtlasInfo;
use crate::model::InsertError;
use crate::model::PageModel;
use crate::model::Slot;
use crate::proofs::lemma_candidates_cover;
use crate::proofs::lemma_place_wf;
use crate::search::insert_points;
use crate::search::select;

verus! {

broadcast use vstd::std_specs::hash::group_hash_axioms;

/// A bounded volume into which boxes are packed, keyed by handles.
pub struct AtlasPage<H: Eq + Hash + Copy> {
    dim: Extent,
    live_items: HashMap<H, AtlasInfo>,
    dead_items: HashMap<H, AtlasInfo>,
}

impl<H: Eq + Hash + Copy> View for AtlasPage<H> {
    type V = PageModel<H>;

    closed spec fn view(&self) -> PageModel<H> {
        PageModel { dim: self.dim, live: self.live_items@, dead: self.dead_items@ }
    }
}

impl<H: Eq + Hash + Copy> Clone for AtlasPage<H> {
    /// A page of its own with the same dimensions and the same entries.
    fn clone(&self) -> (page: Self)
        ensures
            page@ == self@,
    {
        AtlasPage {
            dim: self.dim,
            live_items: self.live_items.clone(),
            dead_items: self.dead_items.clone(),
        }
    }
}

impl<H: Eq + Hash + Copy> AtlasPage<H> {
    /// The invariant of the page: handles are lawful hash keys and the model
    /// is well formed.
    pub open spec fn wf(&self) -> bool {
        obeys_key_model::<H>() && self@.wf()
    }

    /// An empty page of the given dimensions.
    pub fn new(dim: Extent) -> (page: Self)
        requires
            obeys_key_model::<H>(),
        ensures
            page.wf(),
            page@ == PageModel::<H>::empty(dim),
    {
        AtlasPage { dim, live_items: HashMap::new(), dead_items: HashMap::new() }
    }

    /// The dimensions of the page.
    pub fn dim(&self) -> (d: Extent)
        ensures
            d == self@.dim,
    {
        self.dim
    }

    /// Evaluates one candidate placement: `None` where the box leaves the
    /// page or intersects a live entry, else its cost and the dead handles
    /// it would evict, each once.
    pub fn measure(&self, pos: Extent, size: Extent) -> (r: Option<(u64, Vec<H>)>)
        requires
            self.wf(),
        ensures
            r is Some <==> self@.feasible(placed(pos, size)),
            r matches Some((cost, evict)) ==> {
                &&& cost == self@.cost(placed(pos, size))
                &&& evict@.no_duplicates()
                &&& evict@.to_set() == self@.casualties(placed(pos, size))
            },
    {
        let live = entries(&self.live_items);
        let dead = entries(&self.dead_items);
        measure_in(self.dim, &live, &dead, pos, size, Ghost(self@))
    }

    /// Gives the handle a place for a box of the given size.
    ///
    /// A live handle keeps its position, a dead one of the same size is
    /// revived where it was, and any other is placed by the search, which
    /// evicts the dead entries under the chosen box. Nothing but a dead
    /// entry of another size for the same handle changes when the answer is
    /// `NoFit`, and nothing at all when the request is rejected.
    pub fn insert(&mut self, handle: H, size: Extent) -> (r: Result<Slot, InsertError>)
        requires
            old(self).wf(),
        ensures
            final(self).wf(),
            old(self)@.inserts(handle, size, r, final(self)@),
            r == Err::<Slot, InsertError>(InsertError::DegenerateSize) <==> !size.positive(),
            r == Err::<Slot, InsertError>(InsertError::SizeMismatch) <==> size.positive() && old(
                self,
            )@.live.contains_key(handle) && old(self)@.live[handle].size != size,
    {
        if size.lt(Extent::splat(1)).any() {
            return Err(InsertError::DegenerateSize);
        }
        if let Some(info) = self.live_items.get(&handle) {
            if size == info.size {
                return Ok(Slot::Existing(info.position));
            }
            return Err(InsertError::SizeMismatch);
        }
        if let Some(info) = self.dead_items.remove(&handle) {
            if size == info.size {
                // back from the dead
                self.live_items.insert(handle, info);
                return Ok(Slot::Existing(info.position));
            }
            // otherwise the stale entry stays dropped and the search runs
        }
        let ghost base = self@;
        assert(base == old(self)@.forget(handle));
        let live = entries(&self.live_items);
        let dead = entries(&self.dead_items);
        let points = insert_points(&live, &dead, Ghost(base));
        proof {
            lemma_candidates_cover(base, keys(live@), keys(dead@));
        }
        match select(self.dim, &live, &dead, &points, size, Ghost(base)) {
            Some((position, evictions)) => {
                self.live_items.insert(handle, AtlasInfo { size, position });
                self.evict(&evictions);
                proof {
                    let b = placed(position, size);
                    lemma_place_wf(base, handle, b);
                    assert(self.dead_items@ =~= base.dead.remove_keys(base.casualties(b)));
                    let i = choose|i: int|
                        base.first_best(points@, size, i) && #[trigger] points@[i] == position;
                    assert(base.candidates(keys(live@), keys(dead@))[i] == position);
                }
                Ok(Slot::New(position))
            },
            None => {
                proof {
                    assert forall|p: Extent| #[trigger] base.is_candidate(p) implies !base.feasible(
                        placed(p, size),
                    ) by {
                        assert(points@.contains(p));
                    }
                }
                Ok(Slot::NoFit)
            },
        }
    }

    /// The live entry of the handle, if it has one.
    pub fn get(&self, handle: &H) -> (r: Option<AtlasInfo>)
        requires
            self.wf(),
        ensures
            r == if self@.live.contains_key(*handle) {
                Some(self@.live[*handle])
            } else {
                None
            },
    {
        match self.live_items.get(handle) {
            Some(info) => Some(*info),
            None => None,
        }
    }

    /// Marks the handle as dead and keeps its entry in case it comes back.
    pub fn remove(&mut self, handle: &H)
        requires
            old(self).wf(),
        ensures
            final(self).wf(),
            final(self)@ == old(self)@.remove(*handle),
    {
        if let Some(info) = self.live_items.remove(handle) {
            self.dead_items.insert(*handle, info);
        }
        assert(self@.live =~= old(self)@.remove(*handle).live);
    }

    /// Drops the handle without keeping its entry in reserve.
    pub fn purge(&mut self, handle: &H)
        requires
            old(self).wf(),
        ensures
            final(self).wf(),
            final(self)@ == old(self)@.purge(*handle),
    {
        self.live_items.remove(handle);
        self.dead_items.remove(handle);
    }

    /// Marks every live handle as dead.
    pub fn remove_all(&mut self)
        requires
            old(self).wf(),
        ensures
            final(self).wf(),
            final(self)@ == old(self)@.remove_all(),
    {
        let live = entries(&self.live_items);
        let mut i: usize = 0;
        while i < live.len()
            invariant
                0 <= i <= live.len(),
                obeys_key_model::<H>(),
                self.dim == old(self).dim,
                self.live_items@ == old(self).live_items@,
                lists(live@, old(self).live_items@),
                forall|h: H|
                    self.dead_items@.contains_key(h) <==> old(self).dead_items@.contains_key(h)
                        || exists|j: int| 0 <= j < i && #[trigger] live@[j].0 == h,
                forall|h: H| #[trigger]
                    self.dead_items@.contains_key(h) ==> self.dead_items@[h] == if old(
                        self,
                    ).live_items@.contains_key(h) {
                        old(self).live_items@[h]
                    } else {
                        old(self).dead_items@[h]
                    },
            decreases live.len() - i,
        {
            let (handle, info) = live[i];
            proof {
                lemma_entry_at(live@, old(self).live_items@, i as int);
            }
            let ghost before = self.dead_items@;
            self.dead_items.insert(handle, info);
            proof {
                assert forall|h: H|
                    self.dead_items@.contains_key(h) <==> old(self).dead_items@.contains_key(h)
                        || exists|j: int| 0 <= j < i + 1 && #[trigger] live@[j].0 == h by {
                    if h == handle {
                        assert(live@[i as int].0 == h);
                    }
                    if before.contains_key(h) && !old(self).dead_items@.contains_key(h) {
                        let j = choose|j: int| 0 <= j < i && #[trigger] live@[j].0 == h;
                        assert(0 <= j < i + 1 && live@[j].0 == h);
                    }
                    if exists|j: int| 0 <= j < i + 1 && #[trigger] live@[j].0 == h {
                        let j = choose|j: int| 0 <= j < i + 1 && #[trigger] live@[j].0 == h;
                        if j < i {
                            assert(before.contains_key(h));
                        }
                    }
                }
            }
            i += 1;
        }
        self.live_items.clear();
        proof {
            let want = old(self)@.remove_all();
            assert forall|h: H| self.dead_items@.contains_key(h) <==> want.dead.contains_key(h) by {
                if old(self).live_items@.contains_key(h) {
                    let j = lemma_listed(live@, old(self).live_items@, h);
                }
                if self.dead_items@.contains_key(h) && !old(self).dead_items@.contains_key(h) {
                    let j = choose|j: int| 0 <= j < live@.len() && #[trigger] live@[j].0 == h;
                    lemma_entry_at(live@, old(self).live_items@, j);
                }
            }
            assert forall|h: H| #[trigger]
                self.dead_items@.contains_key(h) implies self.dead_items@[h] == want.dead[h] by {
                assert(want.dead.contains_key(h));
            }
            assert(self.dead_items@ =~= want.dead);
            assert(self.live_items@ =~= want.live);
        }
    }

    /// Forgets every handle, live or dead.
    pub fn purge_all(&mut self)
        requires
            old(self).wf(),
        ensures
            final(self).wf(),
            final(self)@ == old(self)@.purge_all(),
    {
        self.live_items.clear();
        self.dead_items.clear();
    }

    /// Drops the listed handles from the dead generation.
    fn evict(&mut self, evictions: &Vec<H>)
        requires
            obeys_key_model::<H>(),
        ensures
            final(self).dim == old(self).dim,
            final(self).live_items@ == old(self).live_items@,
            final(self).dead_items@ == old(self).dead_items@.remove_keys(evictions@.to_set()),
    {
        let mut t: usize = 0;
        while t < evictions.len()
            invariant
                0 <= t <= evictions.len(),
                obeys_key_model::<H>(),
                self.dim == old(self).dim,
                self.live_items@ == old(self).live_items@,
                self.dead_items@ == old(self).dead_items@.remove_keys(
                    evictions@.take(t as int).to_set(),
                ),
            decreases evictions.len() - t,
        {
            let item = evictions[t];
            self.dead_items.remove(&item);
            proof {
                let before = evictions@.take(t as int);
                let after = evictions@.take(t + 1);
                assert(after =~= before.push(item));
                assert(after.to_set() =~= before.to_set().insert(item)) by {
                    assert forall|h: H| after.to_set().contains(h) <==> before.to_set().insert(
                        item,
                    ).contains(h) by {
                        if before.contains(h) {
                            let s = choose|s: int| 0 <= s < before.len() && before[s] == h;
                            assert(after[s] == h);
                        }
                        if h == item {
                            assert(after[t as int] == h);
                        }
                        if after.contains(h) {
                            let s = choose|s: int| 0 <= s < after.len() && after[s] == h;
                            if s < t {
                                assert(before[s] == h);
                            }
                        }
                    }
                }
                assert(self.dead_items@ =~= old(self).dead_items@.remove_keys(after.to_set()));
            }
            t += 1;
        }
        proof {
            assert(evictions@.take(evictions@.len() as int) =~= evictions@);
        }
    }
}

} // verus!
