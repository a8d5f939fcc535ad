use octaindex3d::ids::{Galactic128, Route64};
use octaindex3d::neighbors::{manhattan_distance_route64, neighbors_galactic128, neighbors_route64};

#[test]
fn test_route64_neighbors() {
    let route = Route64::new(0, 0, 0, 0).unwrap();
    let neighbors = neighbors_route64(route);
    assert_eq!(neighbors.len(), 14);
}

#[test]
fn test_galactic128_neighbors() {
    let galactic = Galactic128::new(0, 0, 0, 0, 0, 0, 0, 0).unwrap();
    let neighbors = neighbors_galactic128(galactic);
    assert_eq!(neighbors.len(), 14);
}

#[test]
fn manhattan_distance_of_routes() {
    let a = Route64::new(0, 0, 0, 0).unwrap();
    let b = Route64::new(0, 2, 0, 0).unwrap();
    assert_eq!(manhattan_distance_route64(a, b), 2);
}

#[test]
fn route_at_range_edge_loses_neighbors() {
    let r = Route64::new(0, 524287, 524287, 524287).unwrap();
    let n = neighbors_route64(r);
    assert!(n.len() < 14);
    for nb in &n {
        assert!(nb.x() <= 524287);
    }
}

#[test]
fn index64_keys_list_no_neighbors() {
    let idx = octaindex3d::ids::Index64::new(0, 0, 5, 0, 0, 0).unwrap();
    assert!(octaindex3d::neighbors::neighbors_index64(idx).is_empty());
}

#[test]
fn galactic_neighbors_two_steps_inside_i32_range() {
    let g = Galactic128::new(3, 1, 2, 4, 5, i32::MAX - 2, i32::MIN + 3, 1).unwrap();
    let n = neighbors_galactic128(g);
    assert_eq!(n.len(), 14);
    assert_eq!(n[0], Galactic128::new(3, 1, 2, 4, 5, i32::MAX - 1, i32::MIN + 4, 2).unwrap());
    let edge = Galactic128::new(0, 0, 0, 0, 0, i32::MAX, 1, 1).unwrap();
    assert!(neighbors_galactic128(edge).len() < 14);
}
