use atlas_page::AtlasPage;
use atlas_page::Extent;
use atlas_page::Slot;

/// A page of 10 x 10 x 10 whose only live entry is a 2 x 2 x 2 box at (5, 0, 0).
fn page_with_box_at_five() -> AtlasPage<u64> {
    let mut page: AtlasPage<u64> = AtlasPage::new(Extent::splat(10));
    page.insert(1, Extent::new(5, 1, 1)).unwrap();
    assert_eq!(
        page.insert(2, Extent::splat(2)),
        Ok(Slot::New(Extent::new(5, 0, 0)))
    );
    page.purge(&1);
    page
}

#[test]
fn measure_on_empty_page_is_room_to_the_edges() {
    let page: AtlasPage<u64> = AtlasPage::new(Extent::new(10, 20, 30));
    assert_eq!(
        page.measure(Extent::new(0, 0, 0), Extent::new(1, 2, 3)),
        Some((9 + 18 + 27, vec![]))
    );
    assert_eq!(
        page.measure(Extent::new(4, 5, 6), Extent::new(6, 15, 24)),
        Some((0, vec![]))
    );
}

#[test]
fn measure_rejects_what_leaves_the_page() {
    let page: AtlasPage<u64> = AtlasPage::new(Extent::splat(10));
    assert_eq!(page.measure(Extent::new(5, 0, 0), Extent::new(6, 1, 1)), None);
    assert_eq!(page.measure(Extent::new(0, 5, 0), Extent::new(1, 6, 1)), None);
    assert_eq!(page.measure(Extent::new(0, 0, 5), Extent::new(1, 1, 6)), None);
    assert_eq!(page.measure(Extent::new(11, 0, 0), Extent::splat(1)), None);
    assert_eq!(
        page.measure(Extent::splat(u32::MAX), Extent::splat(u32::MAX)),
        None
    );
    assert_eq!(
        page.measure(Extent::new(9, 9, 9), Extent::splat(1)),
        Some((0, vec![]))
    );
}

#[test]
fn measure_rejects_what_meets_a_live_entry() {
    let page = page_with_box_at_five();
    assert_eq!(page.measure(Extent::new(4, 0, 0), Extent::splat(2)), None);
    assert_eq!(page.measure(Extent::new(6, 1, 1), Extent::splat(1)), None);
    assert_eq!(page.measure(Extent::new(0, 0, 0), Extent::splat(10)), None);
    // sharing a face is no intersection
    assert!(page.measure(Extent::new(7, 0, 0), Extent::splat(2)).is_some());
    assert!(page.measure(Extent::new(5, 2, 0), Extent::splat(2)).is_some());
}

#[test]
fn measure_counts_the_gap_to_a_neighbour() {
    let page = page_with_box_at_five();
    // along x the neighbour is 3 away; along y and z only the edge bounds
    assert_eq!(
        page.measure(Extent::new(0, 0, 0), Extent::splat(2)),
        Some((3 + 8 + 8, vec![]))
    );
    // a neighbour that is not in line along y and z does not bound x
    assert_eq!(
        page.measure(Extent::new(0, 2, 0), Extent::splat(2)),
        Some((8 + 6 + 8, vec![]))
    );
    // a neighbour behind the box does not bound it
    assert_eq!(
        page.measure(Extent::new(7, 0, 0), Extent::splat(2)),
        Some((1 + 8 + 8, vec![]))
    );
}

#[test]
fn measure_ignores_a_touching_neighbour() {
    let page = page_with_box_at_five();
    // the far face of the box is the near face of the neighbour
    assert_eq!(
        page.measure(Extent::new(3, 0, 0), Extent::splat(2)),
        Some((5 + 8 + 8, vec![]))
    );
}

#[test]
fn measure_takes_the_nearest_of_two_neighbours() {
    let mut page: AtlasPage<u64> = AtlasPage::new(Extent::new(20, 2, 2));
    page.insert(1, Extent::new(6, 2, 2)).unwrap();
    assert_eq!(
        page.insert(2, Extent::new(3, 2, 2)),
        Ok(Slot::New(Extent::new(6, 0, 0)))
    );
    assert_eq!(
        page.insert(3, Extent::new(5, 2, 2)),
        Ok(Slot::New(Extent::new(9, 0, 0)))
    );
    assert_eq!(
        page.insert(4, Extent::new(2, 2, 2)),
        Ok(Slot::New(Extent::new(14, 0, 0)))
    );
    page.purge(&1);
    page.purge(&3);
    assert_eq!(
        page.measure(Extent::new(0, 0, 0), Extent::new(2, 2, 2)),
        Some((4, vec![]))
    );
    assert_eq!(
        page.measure(Extent::new(9, 0, 0), Extent::new(2, 2, 2)),
        Some((3, vec![]))
    );
}

#[test]
fn measure_lists_the_dead_entries_under_the_box() {
    let mut page = page_with_box_at_five();
    page.remove(&2);
    assert_eq!(
        page.measure(Extent::new(5, 1, 1), Extent::splat(1)),
        Some((4 + 8 + 8, vec![2]))
    );
    assert_eq!(
        page.measure(Extent::new(0, 0, 0), Extent::splat(2)),
        Some((8 + 8 + 8, vec![]))
    );
    let mut page: AtlasPage<u64> = AtlasPage::new(Extent::new(10, 1, 1));
    page.insert(1, Extent::new(3, 1, 1)).unwrap();
    page.insert(2, Extent::new(3, 1, 1)).unwrap();
    page.remove_all();
    let (cost, mut evict) = page
        .measure(Extent::new(2, 0, 0), Extent::new(2, 1, 1))
        .unwrap();
    evict.sort();
    assert_eq!(cost, 6);
    assert_eq!(evict, vec![1, 2]);
}

#[test]
fn measure_cost_does_not_wrap() {
    let page: AtlasPage<u64> = AtlasPage::new(Extent::splat(u32::MAX));
    assert_eq!(
        page.measure(Extent::new(0, 0, 0), Extent::splat(1)),
        Some((3 * (u32::MAX as u64 - 1), vec![]))
    );
}

#[test]
fn extent_constructors() {
    assert_eq!(Extent::new(1, 2, 3), Extent { x: 1, y: 2, z: 3 });
    assert_eq!(Extent::splat(7), Extent { x: 7, y: 7, z: 7 });
}
