use octaindex3d::id::{CellID, BECH32_HRP};

#[test]
fn test_cell_id_creation() {
    let cell = CellID::from_coords(0, 5, 2, 4, 6).unwrap();
    assert_eq!(cell.frame(), 0);
    assert_eq!(cell.resolution(), 5);
    assert_eq!(cell.x(), 2);
    assert_eq!(cell.y(), 4);
    assert_eq!(cell.z(), 6);
}

#[test]
fn test_cell_id_invalid_parity() {
    let result = CellID::from_coords(0, 5, 0, 1, 2);
    assert!(result.is_err());
}

#[test]
fn test_cell_id_checksum() {
    let cell = CellID::from_coords(0, 5, 2, 4, 6).unwrap();
    assert!(cell.validate_checksum().is_ok());
}

#[test]
fn id_test_neighbor_count() {
    let cell = CellID::from_coords(0, 5, 0, 0, 0).unwrap();
    let neighbors = cell.neighbors();
    assert_eq!(neighbors.len(), 14);
}

#[test]
fn test_parent_child() {
    let parent = CellID::from_coords(0, 5, 2, 4, 6).unwrap();
    let child = CellID::from_coords(0, 6, 4, 8, 12).unwrap();
    assert_eq!(child.parent().unwrap(), parent);
}

#[test]
fn test_bech32m_encoding() {
    let cell = CellID::from_coords(0, 5, 2, 4, 6).unwrap();
    let encoded = cell.to_bech32m().unwrap();
    assert!(encoded.starts_with(BECH32_HRP));
    let decoded = CellID::from_bech32m(&encoded).unwrap();
    assert_eq!(decoded, cell);
}

#[test]
fn test_bytes_roundtrip() {
    let cell = CellID::from_coords(0, 10, 100, 200, 300).unwrap();
    let bytes = cell.to_bytes();
    let cell2 = CellID::from_bytes(bytes).unwrap();
    assert_eq!(cell, cell2);
}

#[test]
fn test_negative_coordinates() {
    let cell = CellID::from_coords(0, 5, -2, -4, -6).unwrap();
    assert_eq!(cell.x(), -2);
    assert_eq!(cell.y(), -4);
    assert_eq!(cell.z(), -6);
}

#[test]
fn test_cell_ordering() {
    let cell1 = CellID::from_coords(0, 5, 0, 0, 0).unwrap();
    let cell2 = CellID::from_coords(0, 6, 0, 0, 0).unwrap();
    assert_ne!(cell1, cell2);
}

#[test]
fn cell_bytes_with_bad_checksum_are_rejected() {
    let cell = CellID::from_coords(0, 10, 100, 200, 300).unwrap();
    let mut bytes = cell.to_bytes();
    bytes[15] ^= 0xFF;
    assert!(matches!(CellID::from_bytes(bytes), Err(octaindex3d::error::Error::ChecksumMismatch { .. })));
}

#[test]
fn cell_children_have_the_cell_as_parent() {
    let parent = CellID::from_coords(0, 5, 2, 4, 6).unwrap();
    let children = parent.children().unwrap();
    assert_eq!(children.len(), 8);
    for child in &children {
        assert_eq!(child.parent().unwrap(), parent);
    }
}

#[test]
fn decoding_another_kind_of_identifier_names_its_prefix() {
    let idx = octaindex3d::ids::Index64::new(0, 0, 5, 1, 1, 1).unwrap();
    let text = idx.to_bech32m().unwrap();
    match CellID::from_bech32m(&text) {
        Err(octaindex3d::error::Error::DecodingError(m)) => assert_eq!(m, "Invalid HRP: expected 'cx3d', got 'i3d1'"),
        other => panic!("unexpected {:?}", other),
    }
}

#[test]
fn cell_neighbors_two_steps_inside_range() {
    let cell = CellID::from_coords(2, 7, 8388605, -8388605, 1).unwrap();
    assert_eq!(cell.neighbors().len(), 14);
    let edge = CellID::from_coords(2, 7, 8388607, 1, 1).unwrap();
    assert!(edge.neighbors().len() < 14);
}
