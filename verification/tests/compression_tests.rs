use octaindex3d::compression::{
    default_compression, get_compression, Codec, Compression, Lz4Compression, NoCompression, ZstdCompression,
    CODEC_LZ4, CODEC_NONE, CODEC_ZSTD,
};

#[test]
fn test_lz4_roundtrip() {
    let codec = Lz4Compression;
    let data = b"Hello, world! This is a test of LZ4 compression.".repeat(100);
    let compressed = codec.compress(&data).unwrap();
    assert!(compressed.len() < data.len());
    let decompressed = codec.decompress(&compressed).unwrap();
    assert_eq!(data, decompressed.as_slice());
}

#[test]
fn test_zstd_roundtrip() {
    let codec = ZstdCompression::new();
    let data = b"Hello, world! This is a test of Zstd compression.".repeat(100);
    let compressed = codec.compress(&data).unwrap();
    assert!(compressed.len() < data.len());
    let decompressed = codec.decompress(&compressed).unwrap();
    assert_eq!(data, decompressed.as_slice());
}

#[test]
fn test_no_compression() {
    let codec = NoCompression;
    let data = b"Hello, world!";
    let compressed = codec.compress(data).unwrap();
    assert_eq!(data, compressed.as_slice());
    let decompressed = codec.decompress(&compressed).unwrap();
    assert_eq!(data, decompressed.as_slice());
}

#[test]
fn codec_ids_and_lookup() {
    assert_eq!(Lz4Compression.codec_id(), CODEC_LZ4);
    assert_eq!(ZstdCompression::new().codec_id(), CODEC_ZSTD);
    assert_eq!(NoCompression.codec_id(), CODEC_NONE);
    assert_eq!(default_compression().codec_id(), CODEC_LZ4);
    assert_eq!(get_compression(CODEC_ZSTD).unwrap().codec_id(), CODEC_ZSTD);
    assert_eq!(get_compression(CODEC_NONE).unwrap().codec_id(), CODEC_NONE);
    assert!(matches!(get_compression(2), Err(octaindex3d::error::Error::UnsupportedCodec(2))));
}

#[test]
fn lz4_rejects_garbage() {
    let codec = Lz4Compression;
    assert!(matches!(codec.decompress(&[0xFF, 0xFF, 0xFF, 0x7F, 1, 2]), Err(octaindex3d::error::Error::Codec(_))));
}

#[test]
fn codec_enum_roundtrip() {
    let data = b"abcabcabcabcabcabc".to_vec();
    for codec in [Codec::Lz4(Lz4Compression), Codec::Zstd(ZstdCompression::with_level(3)), Codec::Stored(NoCompression)] {
        let packed = codec.compress(&data).unwrap();
        assert_eq!(codec.decompress(&packed).unwrap(), data);
    }
}

#[test]
fn looked_up_codecs_round_trip() {
    let data = b"octahedral cells, octahedral cells, octahedral cells".to_vec();
    for id in [CODEC_LZ4, CODEC_ZSTD, CODEC_NONE] {
        let codec = get_compression(id).unwrap();
        let packed = codec.compress(&data).unwrap();
        assert_eq!(codec.decompress(&packed).unwrap(), data);
    }
}
