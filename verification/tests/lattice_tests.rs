use octaindex3d::lattice::{Lattice, LatticeCoord, Parity};
use std::collections::HashMap;

#[test]
fn test_parity_validation() {
    assert!(Parity::from_coords(0, 0, 0).is_ok());
    assert!(Parity::from_coords(2, 4, 6).is_ok());
    assert!(Parity::from_coords(1, 1, 1).is_ok());
    assert!(Parity::from_coords(3, 5, 7).is_ok());
    assert!(Parity::from_coords(0, 1, 0).is_err());
    assert!(Parity::from_coords(1, 2, 3).is_err());
}

#[test]
fn test_lattice_coord_creation() {
    let coord = LatticeCoord::new(2, 4, 6).unwrap();
    assert_eq!(coord.x, 2);
    assert_eq!(coord.y, 4);
    assert_eq!(coord.z, 6);
    assert_eq!(coord.parity, Parity::Even);
    let coord = LatticeCoord::new(1, 3, 5).unwrap();
    assert_eq!(coord.parity, Parity::Odd);
    assert!(LatticeCoord::new(0, 1, 2).is_err());
}

#[test]
fn lattice_test_neighbor_count() {
    let coord = LatticeCoord::new(0, 0, 0).unwrap();
    let neighbors = Lattice::get_neighbors(&coord);
    assert_eq!(neighbors.len(), 14, "BCC lattice should have 14 neighbors");
}

#[test]
fn test_neighbor_parity() {
    let coord = LatticeCoord::new(0, 0, 0).unwrap();
    let neighbors = Lattice::get_neighbors(&coord);
    let opposite_parity_count = neighbors.iter().filter(|n| n.parity == Parity::Odd).count();
    assert_eq!(opposite_parity_count, 8);
    let same_parity_count = neighbors.iter().filter(|n| n.parity == Parity::Even).count();
    assert_eq!(same_parity_count, 6);
}

#[test]
fn test_children_count() {
    let coord = LatticeCoord::new(2, 4, 6).unwrap();
    let children = Lattice::get_children(&coord);
    assert_eq!(children.len(), 8, "Each cell should have 8 children");
}

#[test]
fn test_children_are_valid_bcc_points() {
    for &(px, py, pz) in &[(2, 4, 6), (1, 3, 5), (0, 0, 0), (-3, 5, -7), (-2, -4, 6)] {
        let parent = LatticeCoord::new(px, py, pz).unwrap();
        for child in Lattice::get_children(&parent) {
            assert!(Parity::from_coords(child.x, child.y, child.z).is_ok());
        }
    }
}

#[test]
fn test_parent_child_relationship() {
    for &(px, py, pz) in &[(2, 4, 6), (1, 3, 5), (0, 0, 0), (-3, 5, -7), (-2, -4, 6)] {
        let parent = LatticeCoord::new(px, py, pz).unwrap();
        let children = Lattice::get_children(&parent);
        assert_eq!(children.len(), 8);
        for child in &children {
            let child_parent = Lattice::get_parent(child);
            assert_eq!(child_parent, parent);
        }
    }
}

#[test]
fn test_children_partition_lattice() {
    let mut owner: HashMap<(i32, i32, i32), (i32, i32, i32)> = HashMap::new();
    for px in -4..=4 {
        for py in -4..=4 {
            for pz in -4..=4 {
                let Ok(parent) = LatticeCoord::new(px, py, pz) else {
                    continue;
                };
                for child in Lattice::get_children(&parent) {
                    let prev = owner.insert((child.x, child.y, child.z), (px, py, pz));
                    assert!(prev.is_none());
                }
            }
        }
    }
    for cx in -6..=6 {
        for cy in -6..=6 {
            for cz in -6..=6 {
                if Parity::from_coords(cx, cy, cz).is_ok() {
                    assert!(owner.contains_key(&(cx, cy, cz)));
                }
            }
        }
    }
}

#[test]
fn manhattan_distance_and_scaling() {
    let a = LatticeCoord::new(0, 0, 0).unwrap();
    let b = LatticeCoord::new(3, -5, 7).unwrap();
    assert_eq!(a.manhattan_distance_to(&b), 15);
    let s = b.scale(2);
    assert_eq!((s.x, s.y, s.z), (6, -10, 14));
    assert_eq!(Parity::Even.opposite(), Parity::Odd);
    assert!(Lattice::is_valid_lattice_point(1, 3, 5));
    assert!(!Lattice::is_valid_lattice_point(1, 2, 5));
}
