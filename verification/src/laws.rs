//! What holds of every page, stated over the model of the operations.
use vstd::prelude::*;
use crate::extent::Extent;
use crate::model::is_order;
use crate::model::placed;
use crate::model::AtlasInfo;
use crate::model::InsertError;
use crate::model::PageModel;
use crate::model::Slot;
use crate::proofs::lemma_candidates_cover;
use crate::proofs::lemma_forget_wf;
use crate::proofs::lemma_place_wf;
use crate::proofs::lemma_purge_wf;
use crate::proofs::lemma_remove_all_wf;
use crate::proofs::lemma_remove_wf;
use crate::proofs::lemma_revive_wf;

verus! {

/// One operation of the page leads from `before` to `after`.
pub open spec fn steps<H>(before: PageModel<H>, after: PageModel<H>) -> bool {
    ||| exists|h: H, size: Extent, r: Result<Slot, InsertError>| #[trigger]
        before.inserts(h, size, r, after)
    ||| exists|h: H| after == #[trigger] before.remove(h)
    ||| exists|h: H| after == #[trigger] before.purge(h)
    ||| after == before.remove_all()
    ||| after == before.purge_all()
}

/// The pages that some sequence of operations goes through, starting from
/// the empty page of the given dimensions.
pub open spec fn is_history<H>(trace: Seq<PageModel<H>>, dim: Extent) -> bool {
    &&& trace.len() > 0
    &&& trace[0] == PageModel::<H>::empty(dim)
    &&& forall|i: int| 0 <= i < trace.len() - 1 ==> steps(#[trigger] trace[i], trace[i + 1])
}

/// A picked point is a feasible candidate.
pub proof fn law_pick_is_feasible_candidate<H>(m: PageModel<H>, size: Extent, p: Extent)
    requires
        m.picks(size, p),
    ensures
        m.is_candidate(p),
        m.feasible(placed(p, size)),
{
    let (ls, ds, i) = choose|ls: Seq<H>, ds: Seq<H>, i: int|
        #![trigger m.candidates(ls, ds)[i]]
        {
            &&& is_order(ls, m.live)
            &&& is_order(ds, m.dead)
            &&& m.first_best(m.candidates(ls, ds), size, i)
            &&& m.candidates(ls, ds)[i] == p
        };
    lemma_candidates_cover(m, ls, ds);
    assert(m.candidates(ls, ds).contains(p));
}

/// The search is a best fit: no feasible candidate ranks strictly before the
/// picked point, that is, none evicts fewer dead entries, and none evicts as
/// many at a lower cost.
pub proof fn law_pick_is_optimal<H>(m: PageModel<H>, size: Extent, p: Extent, q: Extent)
    requires
        m.picks(size, p),
        m.is_candidate(q),
        m.feasible(placed(q, size)),
    ensures
        !m.better(placed(q, size), placed(p, size)),
{
    let (ls, ds, i) = choose|ls: Seq<H>, ds: Seq<H>, i: int|
        #![trigger m.candidates(ls, ds)[i]]
        {
            &&& is_order(ls, m.live)
            &&& is_order(ds, m.dead)
            &&& m.first_best(m.candidates(ls, ds), size, i)
            &&& m.candidates(ls, ds)[i] == p
        };
    let pts = m.candidates(ls, ds);
    lemma_candidates_cover(m, ls, ds);
    assert(pts.contains(q));
    let j = choose|j: int| 0 <= j < pts.len() && pts[j] == q;
    if j < i {
        assert(m.better(placed(pts[i], size), placed(pts[j], size)));
    }
}

/// The origin is tried first: where it is feasible and no feasible candidate
/// ranks strictly before it, the search picks it.
pub proof fn law_pick_prefers_origin<H>(m: PageModel<H>, size: Extent, p: Extent)
    requires
        m.picks(size, p),
        m.feasible(placed(Extent::origin(), size)),
        forall|q: Extent|
            m.is_candidate(q) && m.feasible(placed(q, size)) ==> !#[trigger] m.better(
                placed(q, size),
                placed(Extent::origin(), size),
            ),
    ensures
        p == Extent::origin(),
{
    let (ls, ds, i) = choose|ls: Seq<H>, ds: Seq<H>, i: int|
        #![trigger m.candidates(ls, ds)[i]]
        {
            &&& is_order(ls, m.live)
            &&& is_order(ds, m.dead)
            &&& m.first_best(m.candidates(ls, ds), size, i)
            &&& m.candidates(ls, ds)[i] == p
        };
    let pts = m.candidates(ls, ds);
    assert(pts[0] == Extent::origin());
    if i > 0 {
        law_pick_is_feasible_candidate(m, size, p);
        assert(m.better(placed(pts[i], size), placed(pts[0], size)));
    }
}

/// An insertion leaves a well-formed page well formed.
pub proof fn law_insert_keeps_wf<H>(
    m: PageModel<H>,
    h: H,
    size: Extent,
    r: Result<Slot, InsertError>,
    after: PageModel<H>,
)
    requires
        m.wf(),
        m.inserts(h, size, r, after),
    ensures
        after.wf(),
{
    if !size.positive() {
    } else if m.live.contains_key(h) {
    } else if m.dead.contains_key(h) && m.dead[h].size == size {
        lemma_revive_wf(m, h);
    } else {
        let base = m.forget(h);
        lemma_forget_wf(m, h);
        match r {
            Ok(Slot::New(p)) => {
                law_pick_is_feasible_candidate(base, size, p);
                lemma_place_wf(base, h, placed(p, size));
            },
            _ => {},
        }
    }
}

/// Every operation leaves a well-formed page well formed.
pub proof fn law_step_keeps_wf<H>(before: PageModel<H>, after: PageModel<H>)
    requires
        before.wf(),
        steps(before, after),
    ensures
        after.wf(),
{
    if exists|h: H, size: Extent, r: Result<Slot, InsertError>| #[trigger]
        before.inserts(h, size, r, after) {
        let (h, size, r) = choose|h: H, size: Extent, r: Result<Slot, InsertError>| #[trigger]
            before.inserts(h, size, r, after);
        law_insert_keeps_wf(before, h, size, r, after);
    } else if exists|h: H| after == #[trigger] before.remove(h) {
        let h = choose|h: H| after == #[trigger] before.remove(h);
        lemma_remove_wf(before, h);
    } else if exists|h: H| after == #[trigger] before.purge(h) {
        let h = choose|h: H| after == #[trigger] before.purge(h);
        lemma_purge_wf(before, h);
    } else if after == before.remove_all() {
        lemma_remove_all_wf(before);
    } else {
    }
}

/// Every page of a history is well formed and has the dimensions the
/// history began with.
pub proof fn law_history_wf<H>(trace: Seq<PageModel<H>>, dim: Extent, i: int)
    requires
        is_history(trace, dim),
        0 <= i < trace.len(),
    ensures
        trace[i].wf(),
        trace[i].dim == dim,
    decreases i,
{
    if i > 0 {
        law_history_wf(trace, dim, i - 1);
        assert(steps(trace[i - 1], trace[i - 1 + 1]));
        law_step_keeps_wf(trace[i - 1], trace[i]);
        law_step_keeps_dim(trace[i - 1], trace[i]);
    }
}

/// No operation changes the dimensions of a page.
pub proof fn law_step_keeps_dim<H>(before: PageModel<H>, after: PageModel<H>)
    requires
        steps(before, after),
    ensures
        after.dim == before.dim,
{
}

/// At every point of every sequence of operations, no two live entries
/// intersect.
pub proof fn law_live_entries_never_intersect<H>(
    trace: Seq<PageModel<H>>,
    dim: Extent,
    i: int,
    a: H,
    b: H,
)
    requires
        is_history(trace, dim),
        0 <= i < trace.len(),
        trace[i].live.contains_key(a),
        trace[i].live.contains_key(b),
        a != b,
    ensures
        !trace[i].live[a].overlaps(trace[i].live[b]),
{
    law_history_wf(trace, dim, i);
}

/// At every point of every sequence of operations, every entry, live or
/// dead, ends inside the page: position plus size is at most the dimension
/// on each axis.
pub proof fn law_entries_stay_in_bounds<H>(trace: Seq<PageModel<H>>, dim: Extent, i: int, h: H)
    requires
        is_history(trace, dim),
        0 <= i < trace.len(),
    ensures
        trace[i].live.contains_key(h) ==> trace[i].live[h].within(dim),
        trace[i].dead.contains_key(h) ==> trace[i].dead[h].within(dim),
{
    law_history_wf(trace, dim, i);
}

/// Inserting a live handle again with its own size answers `Existing` with
/// the position it has and changes nothing.
pub proof fn law_reinsert_live<H>(
    m: PageModel<H>,
    h: H,
    r: Result<Slot, InsertError>,
    after: PageModel<H>,
)
    requires
        m.wf(),
        m.live.contains_key(h),
        m.inserts(h, m.live[h].size, r, after),
    ensures
        r == Ok::<Slot, InsertError>(Slot::Existing(m.live[h].position)),
        after == m,
{
}

/// Removing a live handle and inserting it again with its own size, with no
/// operation in between, answers `Existing` with the position it had and
/// restores the page as it was.
pub proof fn law_remove_then_reinsert<H>(
    m: PageModel<H>,
    h: H,
    r: Result<Slot, InsertError>,
    after: PageModel<H>,
)
    requires
        m.wf(),
        m.live.contains_key(h),
        m.remove(h).inserts(h, m.live[h].size, r, after),
    ensures
        r == Ok::<Slot, InsertError>(Slot::Existing(m.live[h].position)),
        after == m,
{
    assert(after.live =~= m.live);
    assert(after.dead =~= m.dead);
}

/// A box that is larger than the page on some axis finds no place: for a
/// handle that is not live, the answer is `NoFit`.
pub proof fn law_oversize_never_fits<H>(
    m: PageModel<H>,
    h: H,
    size: Extent,
    r: Result<Slot, InsertError>,
    after: PageModel<H>,
)
    requires
        m.wf(),
        size.positive(),
        !size.le(m.dim),
        !m.live.contains_key(h),
        m.inserts(h, size, r, after),
    ensures
        r == Ok::<Slot, InsertError>(Slot::NoFit),
{
    if m.dead.contains_key(h) {
        assert(m.dead[h].within(m.dim));
    }
    let base = m.forget(h);
    match r {
        Ok(Slot::New(p)) => {
            law_pick_is_feasible_candidate(base, size, p);
        },
        _ => {},
    }
}

/// On an empty page a box that fits in the page is placed at the origin.
pub proof fn law_empty_page_places_at_origin<H>(
    dim: Extent,
    h: H,
    size: Extent,
    r: Result<Slot, InsertError>,
    after: PageModel<H>,
)
    requires
        size.positive(),
        size.le(dim),
        PageModel::<H>::empty(dim).inserts(h, size, r, after),
    ensures
        r == Ok::<Slot, InsertError>(Slot::New(Extent::origin())),
        after.live == Map::<H, AtlasInfo>::empty().insert(h, placed(Extent::origin(), size)),
        after.dead == Map::<H, AtlasInfo>::empty(),
{
    let m = PageModel::<H>::empty(dim);
    let base = m.forget(h);
    assert(base.dead =~= m.dead);
    assert(base.is_candidate(Extent::origin()));
    assert(base.feasible(placed(Extent::origin(), size)));
    match r {
        Ok(Slot::New(p)) => {
            law_pick_is_feasible_candidate(base, size, p);
            assert(p == Extent::origin());
            assert(after.dead =~= Map::<H, AtlasInfo>::empty());
        },
        _ => {},
    }
}

} // verus!
