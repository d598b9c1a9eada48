//! The placement search: candidate points and the best-fit choice among them.
use vstd::prelude::*;
use crate::evaluate::measure_in;
use crate::extent::Extent;
use crate::listing::keys;
use crate::listing::lemma_entry_at;
use crate::listing::lemma_listed;
use crate::listing::lists;
use crate::model::corners;
use crate::model::is_order;
use crate::model::placed;
use crate::model::AtlasInfo;
use crate::model::PageModel;

verus! {

/// The three advancing corners of one entry, appended to the points.
fn push_corners(pts: &mut Vec<Extent>, item: AtlasInfo)
    requires
        item.position.x + item.size.x <= u32::MAX,
        item.position.y + item.size.y <= u32::MAX,
        item.position.z + item.size.z <= u32::MAX,
    ensures
        final(pts)@ == old(pts)@.push(item.corner(0)).push(item.corner(1)).push(item.corner(2)),
{
    pts.push(item.position.plus(item.size.times(Extent::new(1, 0, 0))));
    pts.push(item.position.plus(item.size.times(Extent::new(0, 1, 0))));
    pts.push(item.position.plus(item.size.times(Extent::new(0, 0, 1))));
}

/// The candidate points for walks of the two generations: the origin, then
/// the corners of the live entries, then those of the dead entries.
pub(crate) fn insert_points<H: Copy>(
    live: &Vec<(H, AtlasInfo)>,
    dead: &Vec<(H, AtlasInfo)>,
    Ghost(m): Ghost<PageModel<H>>,
) -> (pts: Vec<Extent>)
    requires
        m.wf(),
        lists(live@, m.live),
        lists(dead@, m.dead),
    ensures
        pts@ == m.candidates(keys(live@), keys(dead@)),
{
    let mut pts: Vec<Extent> = Vec::new();
    pts.push(Extent::new(0, 0, 0));
    let mut i: usize = 0;
    while i < live.len()
        invariant
            0 <= i <= live.len(),
            m.wf(),
            lists(live@, m.live),
            pts@.len() == 1 + 3 * i,
            pts@[0] == Extent::origin(),
            forall|t: int|
                1 <= t < pts@.len() ==> #[trigger] pts@[t] == live@[(t - 1) / 3].1.corner((t - 1) % 3),
        decreases live.len() - i,
    {
        let item = live[i].1;
        proof {
            lemma_entry_at(live@, m.live, i as int);
        }
        push_corners(&mut pts, item);
        i += 1;
    }
    let ghost base = 1 + 3 * live.len();
    let mut k: usize = 0;
    while k < dead.len()
        invariant
            0 <= k <= dead.len(),
            m.wf(),
            lists(dead@, m.dead),
            base == 1 + 3 * live.len(),
            pts@.len() == base + 3 * k,
            pts@[0] == Extent::origin(),
            forall|t: int|
                1 <= t < base ==> #[trigger] pts@[t] == live@[(t - 1) / 3].1.corner((t - 1) % 3),
            forall|t: int|
                base <= t < pts@.len() ==> #[trigger] pts@[t] == dead@[(t - base) / 3].1.corner(
                    (t - base) % 3,
                ),
        decreases dead.len() - k,
    {
        let item = dead[k].1;
        proof {
            lemma_entry_at(dead@, m.dead, k as int);
        }
        push_corners(&mut pts, item);
        k += 1;
    }
    proof {
        let want = m.candidates(keys(live@), keys(dead@));
        assert(pts@.len() == want.len());
        assert forall|t: int| 0 <= t < pts@.len() implies pts@[t] == want[t] by {
            if 1 <= t < base {
                lemma_entry_at(live@, m.live, (t - 1) / 3);
                assert(keys(live@)[(t - 1) / 3] == live@[(t - 1) / 3].0);
            } else if base <= t {
                lemma_entry_at(dead@, m.dead, (t - base) / 3);
                assert(keys(dead@)[(t - base) / 3] == dead@[(t - base) / 3].0);
            }
        }
        assert(pts@ =~= want);
    }
    pts
}

/// The best-fit selector: evaluates every point in turn and keeps the first
/// one that no later point ranks strictly before, with the dead handles it
/// evicts.
pub(crate) fn select<H: Copy>(
    dim: Extent,
    live: &Vec<(H, AtlasInfo)>,
    dead: &Vec<(H, AtlasInfo)>,
    insert_points: &Vec<Extent>,
    size: Extent,
    Ghost(m): Ghost<PageModel<H>>,
) -> (r: Option<(Extent, Vec<H>)>)
    requires
        m.wf(),
        m.dim == dim,
        lists(live@, m.live),
        lists(dead@, m.dead),
    ensures
        r is None ==> m.none_fits(insert_points@, size),
        r matches Some((p, evict)) ==> {
            &&& exists|i: int| m.first_best(insert_points@, size, i) && #[trigger] insert_points@[i] == p
            &&& evict@.no_duplicates()
            &&& evict@.to_set() == m.casualties(placed(p, size))
        },
{
    let mut best_point: Option<Extent> = None;
    let mut best_distance: u64 = u64::MAX;
    let mut best_evict_count: usize = usize::MAX;
    let mut evictions: Vec<H> = Vec::new();
    let ghost pts = insert_points@;
    let ghost mut bi: int = 0;

    let mut k: usize = 0;
    while k < insert_points.len()
        invariant
            0 <= k <= insert_points.len(),
            pts == insert_points@,
            m.wf(),
            m.dim == dim,
            lists(live@, m.live),
            lists(dead@, m.dead),
            best_point is None ==> forall|j: int|
                0 <= j < k ==> !m.feasible(placed(#[trigger] pts[j], size)),
            best_point matches Some(p) ==> {
                &&& 0 <= bi < k
                &&& pts[bi] == p
                &&& m.feasible(placed(p, size))
                &&& best_distance == m.cost(placed(p, size))
                &&& best_evict_count == m.casualties(placed(p, size)).len()
                &&& evictions@.no_duplicates()
                &&& evictions@.to_set() == m.casualties(placed(p, size))
                &&& forall|j: int|
                    0 <= j < bi && m.feasible(placed(#[trigger] pts[j], size)) ==> m.better(
                        placed(p, size),
                        placed(pts[j], size),
                    )
                &&& forall|j: int|
                    bi < j < k && m.feasible(placed(#[trigger] pts[j], size)) ==> !m.better(
                        placed(pts[j], size),
                        placed(p, size),
                    )
            },
        decreases insert_points.len() - k,
    {
        let insert_point = insert_points[k];
        if let Some((insert_distance, insert_evictions)) = measure_in(
            dim,
            live,
            dead,
            insert_point,
            size,
            Ghost(m),
        ) {
            proof {
                insert_evictions@.unique_seq_to_set();
            }
            if best_point.is_none() || insert_evictions.len() < best_evict_count
                || insert_evictions.len() == best_evict_count && insert_distance < best_distance {
                best_point = Some(insert_point);
                best_distance = insert_distance;
                best_evict_count = insert_evictions.len();
                evictions = insert_evictions;
                proof {
                    bi = k as int;
                }
            }
        }
        k += 1;
    }

    match best_point {
        Some(position) => {
            proof {
                assert(m.first_best(pts, size, bi));
            }
            Some((position, evictions))
        },
        None => None,
    }
}

} // verus!
