use octaindex3d::grid::{route_k_ring, route_k_shell};
use octaindex3d::id::CellID;
use octaindex3d::ids::Route64;
use octaindex3d::path::{k_ring, k_shell};

#[test]
fn test_k_ring() {
    let center = CellID::from_coords(0, 5, 0, 0, 0).unwrap();

    let ring0 = k_ring(center, 0);
    assert_eq!(ring0.len(), 1);
    assert_eq!(ring0[0], center);

    let ring1 = k_ring(center, 1);
    assert_eq!(ring1.len(), 15);

    let ring2 = k_ring(center, 2);
    assert!(ring2.len() > ring1.len());
}

#[test]
fn test_k_shell() {
    let center = CellID::from_coords(0, 5, 0, 0, 0).unwrap();

    let shell0 = k_shell(center, 0);
    assert_eq!(shell0.len(), 1);

    let shell1 = k_shell(center, 1);
    assert_eq!(shell1.len(), 14);
}

#[test]
fn ring_is_previous_ring_plus_shell() {
    let center = CellID::from_coords(0, 5, 2, 2, 2).unwrap();
    let ring1 = k_ring(center, 1);
    let ring2 = k_ring(center, 2);
    let shell2 = k_shell(center, 2);
    assert_eq!(ring2.len(), ring1.len() + shell2.len());
    for c in &ring1 {
        assert!(ring2.contains(c));
        assert!(!shell2.contains(c));
    }
    for c in &shell2 {
        assert!(ring2.contains(c));
    }
    assert_eq!(&ring2[..ring1.len()], &ring1[..]);
}

#[test]
fn route_rings_and_shells() {
    let center = Route64::new(0, 0, 0, 0).unwrap();
    assert_eq!(route_k_ring(center, 0), vec![center]);
    assert_eq!(route_k_shell(center, 0), vec![center]);
    let ring1 = route_k_ring(center, 1);
    assert_eq!(ring1.len(), 15);
    assert_eq!(ring1[0], center);
    assert_eq!(route_k_shell(center, 1).len(), 14);
    let ring2 = route_k_ring(center, 2);
    let shell2 = route_k_shell(center, 2);
    assert_eq!(ring2.len(), 15 + shell2.len());
}

#[test]
fn route_ring_at_range_edge_is_smaller() {
    let edge = Route64::new(0, 524286, 0, 0).unwrap();
    let ring1 = route_k_ring(edge, 1);
    assert!(ring1.len() < 15);
    assert_eq!(ring1[0], edge);
}
