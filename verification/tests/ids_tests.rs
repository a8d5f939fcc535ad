use octaindex3d::ids::{Galactic128, Index64, Route64};
use octaindex3d::lattice::BCC_NEIGHBORS_14;
use octaindex3d::VERSION;

#[test]
fn test_galactic128_creation() {
    let g = Galactic128::new(0, 5, 1, 10, 3, 2, 4, 6).unwrap();
    assert_eq!(g.frame_id(), 0);
    assert_eq!(g.scale_mant(), 5);
    assert_eq!(g.scale_tier(), 1);
    assert_eq!(g.lod(), 10);
    assert_eq!(g.attr_usr(), 3);
    assert_eq!((g.x(), g.y(), g.z()), (2, 4, 6));
}

#[test]
fn test_galactic128_parity() {
    assert!(Galactic128::new(0, 0, 0, 0, 0, 0, 0, 0).is_ok());
    assert!(Galactic128::new(0, 0, 0, 0, 0, 1, 1, 1).is_ok());
    assert!(Galactic128::new(0, 0, 0, 0, 0, 0, 1, 0).is_err());
}

#[test]
fn test_index64_morton() {
    let idx = Index64::new(0, 0, 5, 100, 200, 300).unwrap();
    assert_eq!(idx.frame_id(), 0);
    assert_eq!(idx.lod(), 5);
    let (x, y, z) = idx.decode_coords();
    assert_eq!((x, y, z), (100, 200, 300));
}

#[test]
fn test_index64_hierarchy() {
    let parent = Index64::new(0, 0, 5, 8, 8, 8).unwrap();
    let children = parent.children();
    assert_eq!(children.len(), 8);
    for child in &children {
        assert_eq!(child.parent().unwrap(), parent);
    }
}

#[test]
fn test_route64_signed() {
    let r = Route64::new(0, 100, 200, 300).unwrap();
    assert_eq!((r.x(), r.y(), r.z()), (100, 200, 300));
    let r = Route64::new(0, -100, -200, -300).unwrap();
    assert_eq!((r.x(), r.y(), r.z()), (-100, -200, -300));
}

#[test]
fn test_route64_parity() {
    assert!(Route64::new(0, 0, 0, 0).is_ok());
    assert!(Route64::new(0, 1, 1, 1).is_ok());
    assert!(Route64::new(0, 0, 1, 0).is_err());
}

#[test]
fn test_bech32m_roundtrip() {
    let g = Galactic128::new(0, 5, 1, 10, 3, 2, 4, 6).unwrap();
    let encoded = g.to_bech32m().unwrap();
    let decoded = Galactic128::from_bech32m(&encoded).unwrap();
    assert_eq!(g, decoded);

    let idx = Index64::new(0, 0, 5, 100, 200, 300).unwrap();
    let encoded = idx.to_bech32m().unwrap();
    let decoded = Index64::from_bech32m(&encoded).unwrap();
    assert_eq!(idx, decoded);

    let r = Route64::new(0, 100, 200, 300).unwrap();
    let encoded = r.to_bech32m().unwrap();
    let decoded = Route64::from_bech32m(&encoded).unwrap();
    assert_eq!(r, decoded);
}

#[test]
fn test_version() {
    assert_eq!(VERSION, "0.5.6");
}

#[test]
fn test_basic_id_creation() {
    let g = Galactic128::new(0, 5, 1, 10, 0, 2, 4, 6).unwrap();
    assert_eq!(g.frame_id(), 0);
    let i = Index64::new(0, 0, 5, 100, 200, 300).unwrap();
    assert_eq!(i.lod(), 5);
    let r = Route64::new(0, 100, 200, 300).unwrap();
    assert_eq!((r.x(), r.y(), r.z()), (100, 200, 300));
}

#[test]
fn test_bcc_neighbors() {
    assert_eq!(BCC_NEIGHBORS_14.len(), 14);
}

#[test]
fn index64_rejects_bad_tier_and_lod() {
    assert!(matches!(Index64::new(0, 4, 5, 1, 1, 1), Err(octaindex3d::error::Error::InvalidScaleTier(_))));
    assert!(matches!(Index64::new(0, 0, 16, 1, 1, 1), Err(octaindex3d::error::Error::InvalidLOD(_))));
}

#[test]
fn index64_root_has_no_parent() {
    let root = Index64::new(0, 0, 0, 1, 2, 3).unwrap();
    assert!(root.parent().is_none());
}

#[test]
fn route64_rejects_out_of_range_coordinates() {
    assert!(Route64::new(0, 600000, 0, 0).is_err());
    assert!(Route64::new(4, 0, 0, 0).is_err());
}

#[test]
fn bech32m_rejects_wrong_prefix() {
    let idx = Index64::new(0, 0, 5, 100, 200, 300).unwrap();
    let encoded = idx.to_bech32m().unwrap();
    assert!(encoded.starts_with("i3d1"));
    assert!(Route64::from_bech32m(&encoded).is_err());
    assert!(Galactic128::from_bech32m("not a code").is_err());
}

#[test]
fn error_texts_name_the_rejected_value() {
    match Index64::new(0, 4, 5, 1, 1, 1) {
        Err(octaindex3d::error::Error::InvalidScaleTier(m)) => assert_eq!(m, "tier must be 0-3, got 4"),
        other => panic!("unexpected {:?}", other),
    }
    match Index64::new(0, 0, 16, 1, 1, 1) {
        Err(octaindex3d::error::Error::InvalidLOD(m)) => assert_eq!(m, "lod must be 0-15, got 16"),
        other => panic!("unexpected {:?}", other),
    }
}
