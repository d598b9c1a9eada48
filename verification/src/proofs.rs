//! Lemmas about the model that the operations of the page rest on.
use vstd::prelude::*;
use crate::extent::Extent;
use crate::model::corners;
use crate::model::is_order;
use crate::model::placed;
use crate::model::AtlasInfo;
use crate::model::PageModel;

verus! {

/// Two values that are each the least of the same bounds are equal.
pub proof fn lemma_slack_unique<H>(m: PageModel<H>, b: AtlasInfo, axis: int, d1: int, d2: int)
    requires
        m.is_slack(b, axis, d1),
        m.is_slack(b, axis, d2),
    ensures
        d1 == d2,
{
}

/// The least of the bounds, once found, is the slack.
pub proof fn lemma_slack_is<H>(m: PageModel<H>, b: AtlasInfo, axis: int, d: int)
    requires
        m.is_slack(b, axis, d),
    ensures
        m.slack(b, axis) == d,
{
    lemma_slack_unique(m, b, axis, d, m.slack(b, axis));
}

/// Placing a feasible box of positive size for a handle that the page does
/// not hold keeps the page well formed.
pub proof fn lemma_place_wf<H>(m: PageModel<H>, h: H, b: AtlasInfo)
    requires
        m.wf(),
        !m.live.contains_key(h),
        !m.dead.contains_key(h),
        m.feasible(b),
        b.size.positive(),
    ensures
        m.place(h, b).wf(),
{
    let n = m.place(h, b);
    assert(n.dead.dom() =~= m.dead.dom().difference(m.casualties(b)));
    assert forall|d: H, l: H| #[trigger] n.dead.contains_key(d) && #[trigger] n.live.contains_key(l)
        implies !n.dead[d].overlaps(n.live[l]) by {
        if l == h {
            assert(!m.casualties(b).contains(d));
        }
    }
}

/// Reviving a dead entry keeps the page well formed.
pub proof fn lemma_revive_wf<H>(m: PageModel<H>, h: H)
    requires
        m.wf(),
        m.dead.contains_key(h),
    ensures
        m.revive(h).wf(),
{
}

/// Dropping a dead entry keeps the page well formed.
pub proof fn lemma_forget_wf<H>(m: PageModel<H>, h: H)
    requires
        m.wf(),
    ensures
        m.forget(h).wf(),
{
}

/// Demoting a handle keeps the page well formed.
pub proof fn lemma_remove_wf<H>(m: PageModel<H>, h: H)
    requires
        m.wf(),
    ensures
        m.remove(h).wf(),
{
}

/// Dropping a handle from both generations keeps the page well formed.
pub proof fn lemma_purge_wf<H>(m: PageModel<H>, h: H)
    requires
        m.wf(),
    ensures
        m.purge(h).wf(),
{
}

/// Demoting every live handle keeps the page well formed.
pub proof fn lemma_remove_all_wf<H>(m: PageModel<H>)
    requires
        m.wf(),
    ensures
        m.remove_all().wf(),
{
    let n = m.remove_all();
    assert(n.dead.dom() =~= m.dead.dom().union(m.live.dom()));
}

/// Every candidate point stands in the sequence of candidates, whatever the
/// orders of the two generations, and every point of the sequence is a
/// candidate.
pub proof fn lemma_candidates_cover<H>(m: PageModel<H>, live_order: Seq<H>, dead_order: Seq<H>)
    requires
        is_order(live_order, m.live),
        is_order(dead_order, m.dead),
    ensures
        forall|p: Extent| #[trigger]
            m.is_candidate(p) <==> m.candidates(live_order, dead_order).contains(p),
{
    let pts = m.candidates(live_order, dead_order);
    let base = 1 + 3 * live_order.len();
    assert forall|p: Extent| #[trigger] m.is_candidate(p) implies pts.contains(p) by {
        if p == Extent::origin() {
            assert(pts[0] == p);
        } else if exists|h: H, axis: int| #[trigger]
            m.live.contains_key(h) && 0 <= axis < 3 && p == #[trigger] m.live[h].corner(axis) {
            let (h, axis) = choose|h: H, axis: int| #[trigger]
                m.live.contains_key(h) && 0 <= axis < 3 && p == #[trigger] m.live[h].corner(axis);
            assert(live_order.contains(h));
            let j = choose|j: int| 0 <= j < live_order.len() && live_order[j] == h;
            let t = 1 + 3 * j + axis;
            assert((t - 1) / 3 == j && (t - 1) % 3 == axis);
            assert(corners(m.live, live_order)[t - 1] == p);
            assert(pts[t] == p);
        } else {
            let (h, axis) = choose|h: H, axis: int| #[trigger]
                m.dead.contains_key(h) && 0 <= axis < 3 && p == #[trigger] m.dead[h].corner(axis);
            assert(dead_order.contains(h));
            let j = choose|j: int| 0 <= j < dead_order.len() && dead_order[j] == h;
            let t = base + 3 * j + axis;
            assert((t - base) / 3 == j && (t - base) % 3 == axis);
            assert(corners(m.dead, dead_order)[t - base] == p);
            assert(pts[t] == p);
        }
    }
    assert forall|p: Extent| pts.contains(p) implies #[trigger] m.is_candidate(p) by {
        let t = choose|t: int| 0 <= t < pts.len() && pts[t] == p;
        if t == 0 {
        } else if t < base {
            let h = live_order[(t - 1) / 3];
            let axis = (t - 1) % 3;
            assert(corners(m.live, live_order)[t - 1] == p);
            assert(m.live.contains_key(h) && 0 <= axis < 3 && p == m.live[h].corner(axis));
        } else {
            let h = dead_order[(t - base) / 3];
            let axis = (t - base) % 3;
            assert(corners(m.dead, dead_order)[t - base] == p);
            assert(m.dead.contains_key(h) && 0 <= axis < 3 && p == m.dead[h].corner(axis));
        }
    }
}

} // verus!
