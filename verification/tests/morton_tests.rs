use octaindex3d::morton::{morton_decode, morton_decode_lut, morton_encode, morton_encode_lut};

#[test]
fn test_morton_identity() {
    let coords = [(0, 0, 0), (1, 2, 3), (255, 255, 255), (65535, 65535, 65535), (12345, 54321, 32145)];
    for (x, y, z) in coords {
        let encoded = morton_encode(x, y, z);
        let (dx, dy, dz) = morton_decode(encoded);
        assert_eq!((x, y, z), (dx, dy, dz));
    }
}

#[test]
fn test_morton_ordering() {
    let a = morton_encode(0, 0, 0);
    let b = morton_encode(1, 0, 0);
    let c = morton_encode(2, 0, 0);
    assert!(a < b);
    assert!(b < c);
}

#[test]
fn test_morton_lut() {
    let (x, y, z) = (12345, 54321, 32145);
    let encoded = morton_encode_lut(x, y, z);
    let (dx, dy, dz) = morton_decode_lut(encoded);
    assert_eq!((x, y, z), (dx, dy, dz));
}

#[test]
fn morton_interleaves_bits() {
    assert_eq!(morton_encode(1, 0, 0), 1);
    assert_eq!(morton_encode(0, 1, 0), 2);
    assert_eq!(morton_encode(0, 0, 1), 4);
    assert_eq!(morton_encode(3, 0, 0), 9);
    assert_eq!(morton_encode(65535, 65535, 65535), 0xFFFF_FFFF_FFFF);
}
