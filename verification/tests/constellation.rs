use zenith::constellation::{synthetic_catalog_number, walker_slots};

#[test]
fn walker_layout_places_exactly_the_requested_count() {
    // 42 satellites over 6 planes: 7 per plane.
    let slots = walker_slots(42, 6);
    assert_eq!(slots.len(), 42);
    assert_eq!(slots[0], (0, 0));
    assert_eq!(slots[6], (0, 6));
    assert_eq!(slots[7], (1, 0));
    assert_eq!(slots[41], (5, 6));
}

#[test]
fn walker_layout_leaves_the_last_plane_short() {
    // 10 satellites over 4 planes: 3 per plane, the last plane gets 1.
    let slots = walker_slots(10, 4);
    assert_eq!(
        slots,
        vec![(0, 0), (0, 1), (0, 2), (1, 0), (1, 1), (1, 2), (2, 0), (2, 1), (2, 2), (3, 0)]
    );
    // 5 satellites over 4 planes: 2 per plane, so only three planes are used.
    assert_eq!(walker_slots(5, 4), vec![(0, 0), (0, 1), (1, 0), (1, 1), (2, 0)]);
    assert!(walker_slots(0, 3).is_empty());
    assert_eq!(walker_slots(60, 6).len(), 60);
}

#[test]
fn synthetic_catalog_numbers_start_at_90000() {
    assert_eq!(synthetic_catalog_number(0), 90000);
    assert_eq!(synthetic_catalog_number(41), 90041);
}
