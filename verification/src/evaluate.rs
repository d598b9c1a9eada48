//! The placement evaluator: whether a box may stand at a point, what it
//! costs there and which dead entries it would evict.
use vstd::prelude::*;
use crate::extent::Extent;
use crate::listing::keys;
use crate::listing::lemma_entry_at;
use crate::listing::lemma_listed;
use crate::listing::lists;
use crate::model::placed;
use crate::model::AtlasInfo;
use crate::model::PageModel;
use crate::proofs::lemma_slack_is;

verus! {

/// After the first `k` entries of a walk over the live generation, `d` is
/// the least of the room to the page edge and the gaps to those of them that
/// press on the box along the axis.
spec fn slack_upto<H>(
    es: Seq<(H, AtlasInfo)>,
    k: int,
    dim: Extent,
    b: AtlasInfo,
    axis: int,
    d: int,
) -> bool {
    let edge = dim.lane(axis) - b.hi(axis);
    &&& d <= edge
    &&& forall|j: int| 0 <= j < k && (#[trigger] es[j]).1.presses(b, axis) ==> d <= es[j].1.gap(b, axis)
    &&& d == edge || exists|j: int| 0 <= j < k && (#[trigger] es[j]).1.presses(b, axis) && es[j].1.gap(b, axis) == d
}

/// The entry at place `j` of a walk belongs to `h` and intersects the box.
spec fn hit<H>(es: Seq<(H, AtlasInfo)>, j: int, b: AtlasInfo, h: H) -> bool {
    es[j].0 == h && b.overlaps(es[j].1)
}

/// One of the first `k` entries of a walk belongs to `h` and intersects the
/// box.
spec fn found<H>(es: Seq<(H, AtlasInfo)>, k: int, b: AtlasInfo, h: H) -> bool {
    exists|j: int| 0 <= j < k && #[trigger] hit(es, j, b, h)
}

/// After the first `k` entries of a walk over the dead generation, `out`
/// holds, once each, the handles of those of them that the box intersects.
spec fn culled<H>(es: Seq<(H, AtlasInfo)>, k: int, b: AtlasInfo, out: Seq<H>) -> bool {
    &&& out.no_duplicates()
    &&& forall|t: int| 0 <= t < out.len() ==> found(es, k, b, #[trigger] out[t])
    &&& forall|j: int| 0 <= j < k && b.overlaps((#[trigger] es[j]).1) ==> out.contains(es[j].0)
}

/// A complete walk over the live generation yields the slack.
proof fn lemma_walk_gives_slack<H>(
    m: PageModel<H>,
    es: Seq<(H, AtlasInfo)>,
    b: AtlasInfo,
    axis: int,
    d: int,
)
    requires
        lists(es, m.live),
        slack_upto(es, es.len() as int, m.dim, b, axis, d),
    ensures
        m.slack(b, axis) == d,
{
    assert forall|h: H| #[trigger] m.live.contains_key(h) && m.live[h].presses(b, axis) implies d
        <= m.live[h].gap(b, axis) by {
        let j = lemma_listed(es, m.live, h);
    }
    if d != m.edge(b, axis) {
        let j = choose|j: int| 0 <= j < es.len() && (#[trigger] es[j]).1.presses(b, axis) && es[j].1.gap(b, axis) == d;
        lemma_entry_at(es, m.live, j);
    }
    lemma_slack_is(m, b, axis, d);
}

/// A complete walk over the dead generation yields the casualties.
proof fn lemma_walk_gives_casualties<H>(
    m: PageModel<H>,
    es: Seq<(H, AtlasInfo)>,
    b: AtlasInfo,
    out: Seq<H>,
)
    requires
        lists(es, m.dead),
        culled(es, es.len() as int, b, out),
    ensures
        out.to_set() == m.casualties(b),
{
    assert forall|h: H| out.to_set().contains(h) <==> m.casualties(b).contains(h) by {
        if out.to_set().contains(h) {
            let t = choose|t: int| 0 <= t < out.len() && out[t] == h;
            assert(found(es, es.len() as int, b, out[t]));
            let j = choose|j: int| 0 <= j < es.len() && #[trigger] hit(es, j, b, out[t]);
            lemma_entry_at(es, m.dead, j);
        }
        if m.casualties(b).contains(h) {
            let j = lemma_listed(es, m.dead, h);
            assert(out.contains(es[j].0));
        }
    }
    assert(out.to_set() =~= m.casualties(b));
}

/// The placement evaluator over walks of the two generations.
pub(crate) fn measure_in<H: Copy>(
    dim: Extent,
    live: &Vec<(H, AtlasInfo)>,
    dead: &Vec<(H, AtlasInfo)>,
    pos: Extent,
    size: Extent,
    Ghost(m): Ghost<PageModel<H>>,
) -> (r: Option<(u64, Vec<H>)>)
    requires
        m.wf(),
        m.dim == dim,
        lists(live@, m.live),
        lists(dead@, m.dead),
    ensures
        r is Some <==> m.feasible(placed(pos, size)),
        r matches Some((cost, evict)) ==> {
            &&& cost == m.cost(placed(pos, size))
            &&& evict@.no_duplicates()
            &&& evict@.to_set() == m.casualties(placed(pos, size))
        },
{
    let ghost b = placed(pos, size);
    if size.gt(dim).any() {
        return None;
    }
    let room = dim.minus(size);
    if pos.gt(room).any() {
        return None;
    }
    let new_lhs = pos;
    let new_rhs = pos.plus(size);
    let mut distance = room.minus(pos);

    let mut i: usize = 0;
    while i < live.len()
        invariant
            0 <= i <= live.len(),
            m.wf(),
            m.dim == dim,
            lists(live@, m.live),
            b == placed(pos, size),
            b.within(dim),
            new_lhs == pos,
            new_rhs.x == pos.x + size.x,
            new_rhs.y == pos.y + size.y,
            new_rhs.z == pos.z + size.z,
            forall|j: int| 0 <= j < i ==> !b.overlaps((#[trigger] live@[j]).1),
            slack_upto(live@, i as int, dim, b, 0, distance.x as int),
            slack_upto(live@, i as int, dim, b, 1, distance.y as int),
            slack_upto(live@, i as int, dim, b, 2, distance.z as int),
        decreases live.len() - i,
    {
        let cur = live[i].1;
        proof {
            lemma_entry_at(live@, m.live, i as int);
        }
        let cur_lhs = cur.position;
        let cur_rhs = cur.position.plus(cur.size);
        let intersects = new_lhs.lt(cur_rhs).and(new_rhs.gt(cur_lhs));
        if intersects.all() {
            return None;
        }
        let ghost before = distance;
        if intersects.y && intersects.z && cur_lhs.x > new_rhs.x {
            let distance_x = cur_lhs.x - new_rhs.x;
            if distance_x < distance.x {
                distance.x = distance_x;
            }
        }
        if intersects.x && intersects.z && cur_lhs.y > new_rhs.y {
            let distance_y = cur_lhs.y - new_rhs.y;
            if distance_y < distance.y {
                distance.y = distance_y;
            }
        }
        if intersects.x && intersects.y && cur_lhs.z > new_rhs.z {
            let distance_z = cur_lhs.z - new_rhs.z;
            if distance_z < distance.z {
                distance.z = distance_z;
            }
        }
        proof {
            lemma_slack_step(live@, i as int, dim, b, 0, before.x as int, distance.x as int);
            lemma_slack_step(live@, i as int, dim, b, 1, before.y as int, distance.y as int);
            lemma_slack_step(live@, i as int, dim, b, 2, before.z as int, distance.z as int);
        }
        i += 1;
    }

    let mut to_clear: Vec<H> = Vec::new();
    let mut k: usize = 0;
    while k < dead.len()
        invariant
            0 <= k <= dead.len(),
            m.wf(),
            m.dim == dim,
            lists(dead@, m.dead),
            b == placed(pos, size),
            new_lhs == pos,
            new_rhs.x == pos.x + size.x,
            new_rhs.y == pos.y + size.y,
            new_rhs.z == pos.z + size.z,
            culled(dead@, k as int, b, to_clear@),
        decreases dead.len() - k,
    {
        let cur = dead[k].1;
        proof {
            lemma_entry_at(dead@, m.dead, k as int);
        }
        let cur_lhs = cur.position;
        let cur_rhs = cur.position.plus(cur.size);
        let intersects = new_lhs.lt(cur_rhs).and(new_rhs.gt(cur_lhs));
        let ghost before = to_clear@;
        if intersects.all() {
            to_clear.push(dead[k].0);
        }
        proof {
            lemma_cull_step(dead@, k as int, b, before, to_clear@);
        }
        k += 1;
    }

    proof {
        assert forall|h: H| #[trigger] m.live.contains_key(h) implies !b.overlaps(m.live[h]) by {
            let j = lemma_listed(live@, m.live, h);
        }
        lemma_walk_gives_slack(m, live@, b, 0, distance.x as int);
        lemma_walk_gives_slack(m, live@, b, 1, distance.y as int);
        lemma_walk_gives_slack(m, live@, b, 2, distance.z as int);
        lemma_walk_gives_casualties(m, dead@, b, to_clear@);
    }
    Some((distance.x as u64 + distance.y as u64 + distance.z as u64, to_clear))
}

/// One more entry of the walk: the running least either stays or drops to
/// the gap of the entry, exactly when that entry presses closer.
proof fn lemma_slack_step<H>(
    es: Seq<(H, AtlasInfo)>,
    k: int,
    dim: Extent,
    b: AtlasInfo,
    axis: int,
    d0: int,
    d1: int,
)
    requires
        0 <= k < es.len(),
        slack_upto(es, k, dim, b, axis, d0),
        d1 == if es[k].1.presses(b, axis) && es[k].1.gap(b, axis) < d0 {
            es[k].1.gap(b, axis)
        } else {
            d0
        },
    ensures
        slack_upto(es, k + 1, dim, b, axis, d1),
{
    let edge = dim.lane(axis) - b.hi(axis);
    if d1 != edge {
        if es[k].1.presses(b, axis) && es[k].1.gap(b, axis) < d0 {
            assert(es[k].1.presses(b, axis) && es[k].1.gap(b, axis) == d1);
        } else {
            let j = choose|j: int| 0 <= j < k && (#[trigger] es[j]).1.presses(b, axis) && es[j].1.gap(b, axis) == d0;
            assert(0 <= j < k + 1 && es[j].1.presses(b, axis) && es[j].1.gap(b, axis) == d1);
        }
    }
}

/// One more entry of the walk: its handle joins the list exactly when the
/// box intersects it.
proof fn lemma_cull_step<H>(
    es: Seq<(H, AtlasInfo)>,
    k: int,
    b: AtlasInfo,
    out0: Seq<H>,
    out1: Seq<H>,
)
    requires
        0 <= k < es.len(),
        keys(es).no_duplicates(),
        culled(es, k, b, out0),
        out1 == if b.overlaps(es[k].1) {
            out0.push(es[k].0)
        } else {
            out0
        },
    ensures
        culled(es, k + 1, b, out1),
{
    assert forall|t: int| 0 <= t < out1.len() implies found(es, k + 1, b, #[trigger] out1[t]) by {
        if t < out0.len() {
            let j = choose|j: int| 0 <= j < k && #[trigger] hit(es, j, b, out0[t]);
            assert(0 <= j < k + 1 && hit(es, j, b, out1[t]));
        } else {
            assert(hit(es, k, b, out1[t]));
        }
    }
    if b.overlaps(es[k].1) {
        assert forall|s: int, t: int|
            0 <= s < out1.len() && 0 <= t < out1.len() && s != t implies out1[s] != out1[t] by {
            if s < out0.len() && t == out0.len() {
                let j = choose|j: int| 0 <= j < k && #[trigger] hit(es, j, b, out0[s]);
                assert(keys(es)[j] == es[j].0 && keys(es)[k] == es[k].0);
            }
            if t < out0.len() && s == out0.len() {
                let j = choose|j: int| 0 <= j < k && #[trigger] hit(es, j, b, out0[t]);
                assert(keys(es)[j] == es[j].0 && keys(es)[k] == es[k].0);
            }
        }
        assert forall|j: int| 0 <= j < k + 1 && b.overlaps((#[trigger] es[j]).1) implies out1.contains(
            es[j].0,
        ) by {
            if j < k {
                assert(out0.contains(es[j].0));
                let t = choose|t: int| 0 <= t < out0.len() && out0[t] == es[j].0;
                assert(out1[t] == es[j].0);
            } else {
                assert(out1[out0.len() as int] == es[k].0);
            }
        }
    }
}

} // verus!
