use atlas_page::AtlasPage;
use atlas_page::Extent;
use atlas_page::InsertError;
use atlas_page::Slot;

#[test]
fn insert_stuff() {
    let mut page = AtlasPage::new(Extent::splat(10));

    let h0 = 0;
    let h1 = 1;
    let h2 = 2;

    // first item at 0
    assert_eq!(
        page.insert(h0, Extent::splat(6)),
        Ok(Slot::New(Extent::new(0, 0, 0)))
    );

    // inserting again gets same
    assert_eq!(
        page.insert(h0, Extent::splat(6)),
        Ok(Slot::Existing(Extent::new(0, 0, 0)))
    );

    // second item doesn't fit
    assert_eq!(page.insert(h1, Extent::splat(6)), Ok(Slot::NoFit));

    // smaller item fits right
    assert_eq!(
        page.insert(h2, Extent::splat(4)),
        Ok(Slot::New(Extent::new(6, 0, 0)))
    );

    // second item fits after removal
    page.remove(&h0);
    assert_eq!(
        page.insert(h1, Extent::splat(6)),
        Ok(Slot::New(Extent::new(0, 0, 0)))
    );

    // first item no longer fits
    assert_eq!(page.insert(h0, Extent::splat(6)), Ok(Slot::NoFit));

    let mut page = AtlasPage::new(Extent::splat(10));
    page.insert(h0, Extent::splat(2)).unwrap();
    let Ok(Slot::New(pos)) = page.insert(h1, Extent::splat(2)) else {
        panic!()
    };
    page.insert(h2, Extent::splat(2)).unwrap();
    page.remove(&h1);
    // reinsert gets the same location if not paged out
    assert_eq!(page.insert(h1, Extent::splat(2)), Ok(Slot::Existing(pos)))
}

#[test]
fn check_lru() {
    let mut page = AtlasPage::new(Extent::splat(10));

    let h0 = 0;
    let h1 = 1;

    page.insert(h1, Extent::splat(1)).unwrap();
    page.remove(&h1);

    assert_eq!(
        page.insert(h0, Extent::splat(1)),
        Ok(Slot::New(Extent::new(1, 0, 0)))
    );
    assert_eq!(
        page.insert(h1, Extent::splat(1)),
        Ok(Slot::Existing(Extent::new(0, 0, 0)))
    );
}

#[test]
fn first_box_lands_at_origin() {
    let mut page: AtlasPage<u64> = AtlasPage::new(Extent::new(4, 5, 6));
    assert_eq!(
        page.insert(7, Extent::new(4, 5, 6)),
        Ok(Slot::New(Extent::new(0, 0, 0)))
    );
    let info = page.get(&7).unwrap();
    assert_eq!(info.position, Extent::new(0, 0, 0));
    assert_eq!(info.size, Extent::new(4, 5, 6));
}

#[test]
fn oversize_box_never_fits() {
    let mut page: AtlasPage<u64> = AtlasPage::new(Extent::splat(10));
    assert_eq!(page.insert(1, Extent::new(11, 1, 1)), Ok(Slot::NoFit));
    assert_eq!(page.insert(1, Extent::new(1, 11, 1)), Ok(Slot::NoFit));
    assert_eq!(page.insert(1, Extent::new(1, 1, 11)), Ok(Slot::NoFit));
    assert_eq!(page.get(&1), None);
    // a size near the top of the range does not wrap
    assert_eq!(page.insert(1, Extent::splat(u32::MAX)), Ok(Slot::NoFit));
    page.insert(2, Extent::splat(3)).unwrap();
    assert_eq!(page.insert(1, Extent::new(u32::MAX, 1, 1)), Ok(Slot::NoFit));
}

#[test]
fn zero_size_is_rejected() {
    let mut page: AtlasPage<u64> = AtlasPage::new(Extent::splat(10));
    assert_eq!(
        page.insert(1, Extent::new(0, 1, 1)),
        Err(InsertError::DegenerateSize)
    );
    assert_eq!(
        page.insert(1, Extent::new(1, 0, 1)),
        Err(InsertError::DegenerateSize)
    );
    assert_eq!(
        page.insert(1, Extent::new(1, 1, 0)),
        Err(InsertError::DegenerateSize)
    );
    assert_eq!(page.get(&1), None);
    // the page is untouched: the next box still lands at the origin
    assert_eq!(
        page.insert(1, Extent::splat(1)),
        Ok(Slot::New(Extent::new(0, 0, 0)))
    );
    // a live handle with a zero size is rejected as degenerate too
    assert_eq!(
        page.insert(1, Extent::splat(0)),
        Err(InsertError::DegenerateSize)
    );
}

#[test]
fn live_handle_with_other_size_is_rejected() {
    let mut page: AtlasPage<u64> = AtlasPage::new(Extent::splat(10));
    page.insert(1, Extent::splat(6)).unwrap();
    assert_eq!(
        page.insert(1, Extent::splat(4)),
        Err(InsertError::SizeMismatch)
    );
    assert_eq!(
        page.insert(1, Extent::new(11, 1, 1)),
        Err(InsertError::SizeMismatch)
    );
    let info = page.get(&1).unwrap();
    assert_eq!(info.size, Extent::splat(6));
    assert_eq!(info.position, Extent::new(0, 0, 0));
}

#[test]
fn reinsert_live_changes_nothing() {
    let mut page: AtlasPage<u64> = AtlasPage::new(Extent::splat(10));
    page.insert(1, Extent::splat(4)).unwrap();
    let Ok(Slot::New(pos)) = page.insert(2, Extent::splat(4)) else {
        panic!()
    };
    page.remove(&1);
    assert_eq!(page.insert(2, Extent::splat(4)), Ok(Slot::Existing(pos)));
    assert_eq!(page.get(&2).unwrap().position, pos);
    // the dead entry of the other handle is still there to be revived
    assert_eq!(
        page.insert(1, Extent::splat(4)),
        Ok(Slot::Existing(Extent::new(0, 0, 0)))
    );
}

#[test]
fn remove_then_reinsert_returns_same_position() {
    let mut page: AtlasPage<u64> = AtlasPage::new(Extent::splat(10));
    page.insert(1, Extent::splat(3)).unwrap();
    let Ok(Slot::New(pos)) = page.insert(2, Extent::new(2, 3, 4)) else {
        panic!()
    };
    page.remove(&2);
    assert_eq!(page.get(&2), None);
    assert_eq!(
        page.insert(2, Extent::new(2, 3, 4)),
        Ok(Slot::Existing(pos))
    );
    assert_eq!(page.get(&2).unwrap().position, pos);
}

#[test]
fn dead_handle_with_other_size_is_placed_afresh() {
    let mut page: AtlasPage<u64> = AtlasPage::new(Extent::splat(10));
    page.insert(1, Extent::splat(6)).unwrap();
    page.remove(&1);
    // the stale entry is dropped first, so the origin costs no eviction
    assert_eq!(
        page.insert(1, Extent::splat(4)),
        Ok(Slot::New(Extent::new(0, 0, 0)))
    );
    assert_eq!(page.get(&1).unwrap().size, Extent::splat(4));
}

#[test]
fn stale_dead_entry_is_dropped_even_without_room() {
    let mut page: AtlasPage<u64> = AtlasPage::new(Extent::splat(10));
    page.insert(1, Extent::splat(2)).unwrap();
    page.remove(&1);
    assert_eq!(page.insert(1, Extent::splat(11)), Ok(Slot::NoFit));
    // the old entry is gone: the same size is now placed, not revived
    assert_eq!(
        page.insert(1, Extent::splat(2)),
        Ok(Slot::New(Extent::new(0, 0, 0)))
    );
}

#[test]
fn no_fit_leaves_the_page_alone() {
    let mut page: AtlasPage<u64> = AtlasPage::new(Extent::splat(10));
    page.insert(1, Extent::splat(6)).unwrap();
    page.insert(2, Extent::splat(4)).unwrap();
    page.remove(&2);
    assert_eq!(page.insert(3, Extent::splat(7)), Ok(Slot::NoFit));
    assert_eq!(page.get(&1).unwrap().position, Extent::new(0, 0, 0));
    assert_eq!(page.get(&3), None);
    assert_eq!(
        page.insert(2, Extent::splat(4)),
        Ok(Slot::Existing(Extent::new(6, 0, 0)))
    );
}

#[test]
fn fewer_evictions_beat_lower_cost() {
    let mut page: AtlasPage<u64> = AtlasPage::new(Extent::new(10, 1, 1));
    page.insert(1, Extent::new(8, 1, 1)).unwrap();
    page.remove(&1);
    // the origin would evict the dead entry; its corner at x = 8 would not
    assert_eq!(
        page.insert(2, Extent::new(2, 1, 1)),
        Ok(Slot::New(Extent::new(8, 0, 0)))
    );
    assert_eq!(
        page.insert(1, Extent::new(8, 1, 1)),
        Ok(Slot::Existing(Extent::new(0, 0, 0)))
    );
}

#[test]
fn placement_evicts_what_it_covers() {
    let mut page: AtlasPage<u64> = AtlasPage::new(Extent::new(10, 1, 1));
    page.insert(1, Extent::new(8, 1, 1)).unwrap();
    page.remove(&1);
    // only the origin admits a box this long, and it covers the dead entry
    assert_eq!(
        page.insert(2, Extent::new(9, 1, 1)),
        Ok(Slot::New(Extent::new(0, 0, 0)))
    );
    assert_eq!(page.insert(1, Extent::new(8, 1, 1)), Ok(Slot::NoFit));
}

#[test]
fn lower_cost_breaks_ties() {
    let mut page: AtlasPage<u64> = AtlasPage::new(Extent::new(10, 6, 1));
    page.insert(1, Extent::new(4, 4, 1)).unwrap();
    // beside: slack 2 + 2 + 0; above: slack 6 + 0 + 0
    assert_eq!(
        page.insert(2, Extent::new(4, 2, 1)),
        Ok(Slot::New(Extent::new(4, 0, 0)))
    );
    assert_eq!(
        page.insert(3, Extent::new(4, 2, 1)),
        Ok(Slot::New(Extent::new(4, 2, 0)))
    );
}

#[test]
fn live_boxes_never_intersect() {
    let mut page: AtlasPage<u64> = AtlasPage::new(Extent::splat(8));
    let sizes = [
        Extent::new(3, 3, 3),
        Extent::new(5, 2, 2),
        Extent::new(2, 5, 1),
        Extent::new(4, 4, 4),
        Extent::new(1, 1, 8),
        Extent::new(3, 2, 5),
        Extent::new(2, 2, 2),
        Extent::new(6, 1, 1),
    ];
    let mut step: u64 = 0;
    for round in 0..6u64 {
        for (i, size) in sizes.iter().enumerate() {
            let h = i as u64;
            step += 1;
            if (step + round) % 3 == 0 {
                page.remove(&h);
            } else if (step + round) % 7 == 0 {
                page.purge(&h);
            } else {
                page.insert(h, *size).unwrap();
            }
            let dim = page.dim();
            for a in 0..sizes.len() as u64 {
                let Some(ea) = page.get(&a) else { continue };
                assert!(ea.position.x + ea.size.x <= dim.x);
                assert!(ea.position.y + ea.size.y <= dim.y);
                assert!(ea.position.z + ea.size.z <= dim.z);
                for b in 0..a {
                    let Some(eb) = page.get(&b) else { continue };
                    let apart = ea.position.x + ea.size.x <= eb.position.x
                        || eb.position.x + eb.size.x <= ea.position.x
                        || ea.position.y + ea.size.y <= eb.position.y
                        || eb.position.y + eb.size.y <= ea.position.y
                        || ea.position.z + ea.size.z <= eb.position.z
                        || eb.position.z + eb.size.z <= ea.position.z;
                    assert!(apart);
                }
            }
        }
    }
}

#[test]
fn get_sees_live_entries_only() {
    let mut page: AtlasPage<u64> = AtlasPage::new(Extent::splat(10));
    assert_eq!(page.get(&1), None);
    page.insert(1, Extent::splat(2)).unwrap();
    assert!(page.get(&1).is_some());
    page.remove(&1);
    assert_eq!(page.get(&1), None);
    // removing a dead or an unknown handle does nothing
    page.remove(&1);
    page.remove(&9);
    assert_eq!(
        page.insert(1, Extent::splat(2)),
        Ok(Slot::Existing(Extent::new(0, 0, 0)))
    );
}

#[test]
fn purge_forgets_the_position() {
    let mut page: AtlasPage<u64> = AtlasPage::new(Extent::splat(10));
    page.insert(1, Extent::splat(2)).unwrap();
    page.insert(2, Extent::splat(2)).unwrap();
    page.purge(&2);
    assert_eq!(page.get(&2), None);
    assert_eq!(
        page.insert(2, Extent::splat(2)),
        Ok(Slot::New(Extent::new(2, 0, 0)))
    );
    page.remove(&2);
    page.purge(&2);
    assert_eq!(
        page.insert(2, Extent::splat(2)),
        Ok(Slot::New(Extent::new(2, 0, 0)))
    );
    page.purge(&9);
}

#[test]
fn remove_all_keeps_positions_for_revival() {
    let mut page: AtlasPage<u64> = AtlasPage::new(Extent::splat(10));
    page.insert(1, Extent::splat(6)).unwrap();
    page.insert(2, Extent::splat(4)).unwrap();
    page.remove_all();
    assert_eq!(page.get(&1), None);
    assert_eq!(page.get(&2), None);
    assert_eq!(
        page.insert(2, Extent::splat(4)),
        Ok(Slot::Existing(Extent::new(6, 0, 0)))
    );
    assert_eq!(
        page.insert(1, Extent::splat(6)),
        Ok(Slot::Existing(Extent::new(0, 0, 0)))
    );
}

#[test]
fn purge_all_empties_the_page() {
    let mut page: AtlasPage<u64> = AtlasPage::new(Extent::splat(10));
    page.insert(1, Extent::splat(6)).unwrap();
    page.insert(2, Extent::splat(4)).unwrap();
    page.remove(&2);
    page.purge_all();
    assert_eq!(page.get(&1), None);
    assert_eq!(
        page.insert(2, Extent::splat(4)),
        Ok(Slot::New(Extent::new(0, 0, 0)))
    );
    assert_eq!(page.dim(), Extent::splat(10));
}
