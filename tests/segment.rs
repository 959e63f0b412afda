use pgextkit::carve::{AllocationCoordinator, CarveError, Grant};

#[test]
fn reservations_are_carved_in_order_without_overlap() {
    let mut c = AllocationCoordinator::new();
    c.reserve(256, 1);
    c.reserve(64, 2);
    c.reserve(8, 3);
    assert_eq!(c.requested(), Some(328));
    let layout = c.map_segment(2000, 100, 1000).unwrap();
    assert_eq!(layout.registry_offset, 0);
    assert_eq!(layout.dynamic_offset, 100);
    let g = &layout.grants;
    assert!(g[0] == Grant { token: 1, offset: 1100, size: 256 });
    assert!(g[1] == Grant { token: 2, offset: 1356, size: 64 });
    assert!(g[2] == Grant { token: 3, offset: 1420, size: 8 });
    assert_eq!(g.len(), 3);
    for i in 0..g.len() {
        for j in i + 1..g.len() {
            assert!(g[i].offset + g[i].size <= g[j].offset);
        }
    }
}

#[test]
fn mapping_consumes_reservations_once() {
    let mut c = AllocationCoordinator::new();
    c.reserve(10, 9);
    let first = c.map_segment(100, 10, 10).unwrap();
    assert_eq!(first.grants.len(), 1);
    let second = c.map_segment(100, 10, 10).unwrap();
    assert_eq!(second.grants.len(), 0);
    assert_eq!(c.requested(), Some(0));
}

#[test]
fn exact_fit_is_accepted() {
    let mut c = AllocationCoordinator::new();
    c.reserve(50, 1);
    let layout = c.map_segment(100, 20, 30).unwrap();
    assert!(layout.grants[0] == Grant { token: 1, offset: 50, size: 50 });
}

#[test]
fn undersized_segment_is_refused() {
    let mut c = AllocationCoordinator::new();
    c.reserve(51, 1);
    assert!(matches!(c.map_segment(100, 20, 30), Err(CarveError::SegmentTooSmall)));
    let mut d = AllocationCoordinator::new();
    assert!(matches!(d.map_segment(10, 20, 0), Err(CarveError::SegmentTooSmall)));
    let mut e = AllocationCoordinator::new();
    assert!(matches!(e.map_segment(10, 5, 6), Err(CarveError::SegmentTooSmall)));
}

#[test]
fn requested_total_that_overflows_is_none() {
    let mut c = AllocationCoordinator::new();
    c.reserve(usize::MAX, 1);
    c.reserve(1, 2);
    assert_eq!(c.requested(), None);
}
