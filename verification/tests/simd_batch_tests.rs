use octaindex3d::error::Error;
use octaindex3d::ids::{Index64, Route64};
use octaindex3d::performance::simd_batch::{
    batch_bounding_box_query, batch_euclidean_distance_squared, batch_index64_decode, batch_index64_encode,
    batch_manhattan_distance, batch_validate_routes,
};

#[test]
fn test_batch_index64_encode() {
    let frame_ids = vec![0, 0, 0, 0];
    let tiers = vec![0, 0, 0, 0];
    let lods = vec![0, 0, 0, 0];
    let coords = vec![(0, 0, 0), (1, 1, 1), (2, 2, 2), (3, 3, 3)];

    let result = batch_index64_encode(&frame_ids, &tiers, &lods, &coords).unwrap();
    assert_eq!(result.len(), 4);

    for i in 0..4 {
        let expected = Index64::new(frame_ids[i], tiers[i], lods[i], coords[i].0, coords[i].1, coords[i].2).unwrap();
        assert_eq!(result[i], expected);
    }
}

#[test]
fn test_batch_index64_decode() {
    let indices = vec![
        Index64::new(0, 0, 0, 0, 0, 0).unwrap(),
        Index64::new(0, 0, 0, 1, 1, 1).unwrap(),
        Index64::new(0, 0, 0, 2, 2, 2).unwrap(),
    ];

    let result = batch_index64_decode(&indices);
    assert_eq!(result.len(), 3);
    assert_eq!(result[0], (0, 0, 0));
    assert_eq!(result[1], (1, 1, 1));
    assert_eq!(result[2], (2, 2, 2));
}

#[test]
fn test_batch_validate_routes() {
    let routes = vec![
        Route64::new(0, 0, 0, 0).unwrap(),
        Route64::new(0, 2, 2, 2).unwrap(),
        Route64::new(0, 2, 2, 0).unwrap(),
    ];

    let result = batch_validate_routes(&routes);
    assert_eq!(result.len(), 3);
    assert!(result[0], "Route (0,0,0) should be valid");
    assert!(result[1], "Route (2,2,2) should be valid");
    assert!(result[2], "Route (2,2,0) should be valid");
}

#[test]
fn test_batch_manhattan_distance() {
    let source = Route64::new(0, 0, 0, 0).unwrap();
    let targets = vec![
        Route64::new(0, 0, 0, 0).unwrap(),
        Route64::new(0, 2, 0, 0).unwrap(),
        Route64::new(0, 2, 2, 0).unwrap(),
        Route64::new(0, 2, 2, 2).unwrap(),
    ];

    let result = batch_manhattan_distance(source, &targets);
    assert_eq!(result, vec![0, 2, 4, 6]);
}

#[test]
fn test_batch_euclidean_distance_squared() {
    let source = Route64::new(0, 0, 0, 0).unwrap();
    let targets = vec![
        Route64::new(0, 0, 0, 0).unwrap(),
        Route64::new(0, 2, 0, 0).unwrap(),
        Route64::new(0, 2, 2, 0).unwrap(),
        Route64::new(0, 2, 2, 2).unwrap(),
    ];

    let result = batch_euclidean_distance_squared(source, &targets);
    assert_eq!(result, vec![0, 4, 8, 12]);
}

#[test]
fn test_batch_bounding_box_query() {
    let routes = vec![
        Route64::new(0, 0, 0, 0).unwrap(),
        Route64::new(0, 2, 2, 2).unwrap(),
        Route64::new(0, 4, 4, 4).unwrap(),
        Route64::new(0, 6, 6, 6).unwrap(),
        Route64::new(0, 8, 8, 8).unwrap(),
    ];

    let result = batch_bounding_box_query(&routes, 0, 4, 0, 4, 0, 4);
    assert_eq!(result, vec![0, 1, 2]);
}

#[test]
fn test_batch_bounding_box_query_large() {
    let mut routes = Vec::new();
    for i in 0..100 {
        let coord = i * 2;
        routes.push(Route64::new(0, coord, coord, coord).unwrap());
    }

    let result = batch_bounding_box_query(&routes, 0, 20, 0, 20, 0, 20);
    assert_eq!(result.len(), 11);
}

#[test]
fn batch_encode_rejects_mismatched_lengths() {
    let r = batch_index64_encode(&[0, 0], &[0], &[0, 0], &[(0, 0, 0), (1, 1, 1)]);
    assert!(matches!(r, Err(Error::InvalidFormat(_))));
}

#[test]
fn batch_encode_reports_first_bad_entry() {
    let r = batch_index64_encode(&[0, 0, 0], &[0, 0, 4], &[0, 16, 0], &[(0, 0, 0), (1, 1, 1), (2, 2, 2)]);
    assert!(matches!(r, Err(Error::InvalidLOD(_))));
    let r = batch_index64_encode(&[0, 0], &[4, 0], &[16, 0], &[(0, 0, 0), (1, 1, 1)]);
    assert!(matches!(r, Err(Error::InvalidScaleTier(_))));
}

#[test]
fn odd_sum_routes_fail_validation() {
    let routes = vec![Route64::new(0, 1, 1, 1).unwrap(), Route64::new(0, -3, 5, 7).unwrap()];
    assert_eq!(batch_validate_routes(&routes), vec![false, false]);
}

#[test]
fn distances_with_negative_coordinates() {
    let source = Route64::new(0, -2, 4, 0).unwrap();
    let targets = vec![Route64::new(0, 2, -4, 6).unwrap()];
    assert_eq!(batch_manhattan_distance(source, &targets), vec![18]);
    assert_eq!(batch_euclidean_distance_squared(source, &targets), vec![16 + 64 + 36]);
}

#[test]
fn box_query_is_inclusive_and_ordered() {
    let routes = vec![
        Route64::new(0, 6, 6, 6).unwrap(),
        Route64::new(0, -2, 0, 0).unwrap(),
        Route64::new(0, 4, 4, 4).unwrap(),
        Route64::new(0, 0, 0, 0).unwrap(),
    ];
    assert_eq!(batch_bounding_box_query(&routes, -2, 4, 0, 4, 0, 4), vec![1, 2, 3]);
    assert_eq!(batch_bounding_box_query(&routes, 10, 20, 10, 20, 10, 20), Vec::<usize>::new());
}
