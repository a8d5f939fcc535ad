use octaindex3d::hilbert::{gray_to_binary_3bit, hilbert3d_decode, hilbert3d_encode, Hilbert64};
use octaindex3d::ids::Index64;

#[test]
fn test_hilbert_encode_decode_identity() {
    let coords = [(0, 0, 0), (1, 2, 3), (255, 255, 255), (32767, 32767, 32767)];
    for (x, y, z) in coords {
        let encoded = hilbert3d_encode(x, y, z);
        let (dx, dy, dz) = hilbert3d_decode(encoded);
        assert_eq!((x, y, z), (dx, dy, dz));
    }
}

#[test]
fn test_hilbert64_creation() {
    let h = Hilbert64::new(0, 0, 5, 100, 200, 300).unwrap();
    assert_eq!(h.frame_id(), 0);
    assert_eq!(h.scale_tier(), 0);
    assert_eq!(h.lod(), 5);
    let (x, y, z) = h.decode();
    assert_eq!((x, y, z), (100, 200, 300));
}

#[test]
fn test_hilbert64_hierarchy() {
    let parent = Hilbert64::new(0, 0, 5, 8, 8, 8).unwrap();
    let children = parent.children();
    assert_eq!(children.len(), 8);
    for child in &children {
        assert_eq!(child.parent().unwrap(), parent);
    }
}

#[test]
fn test_hilbert_index64_conversion() {
    let idx = Index64::new(0, 0, 5, 100, 200, 300).unwrap();
    let hilbert: Hilbert64 = idx.try_into().unwrap();
    let idx2: Index64 = hilbert.into();
    let (x1, y1, z1) = idx.decode_coords();
    let (x2, y2, z2) = idx2.decode_coords();
    assert_eq!((x1, y1, z1), (x2, y2, z2));
}

#[test]
fn test_hilbert_batch_encode() {
    let coords = vec![(0, 0, 0), (1, 1, 1), (2, 2, 2)];
    let hilberts = Hilbert64::encode_batch(&coords, 0, 0, 5).unwrap();
    assert_eq!(hilberts.len(), 3);
    for (i, h) in hilberts.iter().enumerate() {
        let (x, y, z) = h.decode();
        assert_eq!((x, y, z), coords[i]);
    }
}

#[test]
fn gray_code_inverse_values() {
    let expected = [0u8, 1, 3, 2, 7, 6, 4, 5];
    for g in 0u8..8 {
        assert_eq!(gray_to_binary_3bit(g), expected[g as usize]);
    }
}

#[test]
fn hilbert_known_code() {
    assert_eq!(hilbert3d_encode(1, 0, 0), 1);
    assert_eq!(hilbert3d_encode(0, 1, 0), 3);
    assert_eq!(hilbert3d_encode(0, 0, 1), 6);
}

#[test]
fn hilbert_root_has_no_parent_and_errors() {
    let root = Hilbert64::new(0, 0, 0, 1, 1, 1).unwrap();
    assert!(root.parent().is_none());
    assert!(Hilbert64::new(0, 4, 0, 1, 1, 1).is_err());
    assert!(Hilbert64::new(0, 0, 16, 1, 1, 1).is_err());
}
