use octaindex3d::compression::{Codec, NoCompression};
use octaindex3d::container::{ContainerReader, ContainerWriter, FORMAT_VERSION, MAX_COMPRESSED_FRAME_BYTES, MAX_FRAME_COUNT};
use octaindex3d::container_v2::{ContainerWriterV2, HeaderV2, StreamConfig, TocEntry};
use octaindex3d::error::Error;

const MAGIC: &[u8; 8] = b"OCTA3D\0\0";

#[test]
fn test_container_write_read() {
    let data1 = b"Hello, world!".repeat(100);
    let data2 = b"Another frame of data".repeat(50);
    let mut writer = ContainerWriter::new().unwrap();
    writer.write_frame(&data1).unwrap();
    writer.write_frame(&data2).unwrap();
    let buffer = writer.finish().unwrap();

    let mut reader = ContainerReader::open(buffer).unwrap();
    assert_eq!(reader.frame_count(), 2);
    let frame1 = reader.next_frame().unwrap().unwrap();
    assert_eq!(frame1, data1);
    let frame2 = reader.next_frame().unwrap().unwrap();
    assert_eq!(frame2, data2);
    let frame3 = reader.next_frame().unwrap();
    assert!(frame3.is_none());
}

#[test]
fn test_container_rejects_excessive_frame_count() {
    let mut buffer = Vec::new();
    buffer.extend_from_slice(MAGIC);
    buffer.push(FORMAT_VERSION);
    buffer.push(0);
    buffer.extend_from_slice(&(MAX_FRAME_COUNT + 1).to_be_bytes());
    buffer.extend_from_slice(&[0, 0]);
    let err = match ContainerReader::open(buffer) {
        Ok(_) => panic!("expected invalid format error"),
        Err(err) => err,
    };
    assert!(matches!(err, Error::InvalidFormat(_)));
}

#[test]
fn test_container_rejects_oversized_frame_header() {
    let mut buffer = Vec::new();
    buffer.extend_from_slice(MAGIC);
    buffer.push(FORMAT_VERSION);
    buffer.push(0);
    buffer.extend_from_slice(&1u32.to_be_bytes());
    buffer.extend_from_slice(&[0, 0]);
    let mut header = [0u8; 16];
    header[0] = 1;
    header[4..8].copy_from_slice(&1u32.to_be_bytes());
    header[8..12].copy_from_slice(&(MAX_COMPRESSED_FRAME_BYTES + 1).to_be_bytes());
    header[12..16].copy_from_slice(&0u32.to_be_bytes());
    buffer.extend_from_slice(&header);
    let err = match ContainerReader::open(buffer) {
        Ok(_) => panic!("expected invalid format error"),
        Err(err) => err,
    };
    assert!(matches!(err, Error::InvalidFormat(_)));
}

#[test]
fn container_rejects_bad_magic() {
    let mut buffer = b"NOTMAGIC".to_vec();
    buffer.extend_from_slice(&[1, 0, 0, 0, 0, 0, 0, 0]);
    assert!(matches!(ContainerReader::open(buffer), Err(Error::InvalidFormat(_))));
}

#[test]
fn container_detects_corrupted_frame() {
    let mut writer = ContainerWriter::with_compression(Codec::Stored(NoCompression)).unwrap();
    writer.write_frame(b"payload bytes").unwrap();
    let mut buffer = writer.finish().unwrap();
    let last = buffer.len() - 1;
    buffer[last] ^= 0x01;
    let mut reader = ContainerReader::open(buffer).unwrap();
    assert!(matches!(reader.next_frame(), Err(Error::CrcMismatch { .. })));
}

#[test]
fn test_header_v2_roundtrip() {
    let header = HeaderV2::new(true);
    assert!(header.has_sha256());
    let bytes = header.to_bytes();
    let header2 = HeaderV2::from_bytes(&bytes).unwrap();
    assert_eq!(header.format_version, header2.format_version);
    assert_eq!(header.flags, header2.flags);
    assert_eq!(header.stream_id, header2.stream_id);
}

#[test]
fn test_toc_entry_roundtrip() {
    let entry = TocEntry { offset: 1000, uncompressed_len: 500, compressed_len: 300, codec: 0, graph: 0, lod: 5, tier: 1, seq: 42 };
    let bytes = entry.to_bytes();
    let entry2 = TocEntry::from_bytes(&bytes);
    assert_eq!(entry.offset, entry2.offset);
    assert_eq!(entry.seq, entry2.seq);
    assert_eq!(entry.lod, entry2.lod);
}

#[test]
fn test_container_v2_write() {
    let config = StreamConfig::default();
    let mut writer = ContainerWriterV2::new(config).unwrap();
    writer.write_frame(b"Hello, world!").unwrap();
    writer.write_frame(b"Frame 2").unwrap();
    let buffer = writer.finish().unwrap();
    assert_eq!(&buffer[0..8], b"OCTA3D2\0");
}

#[test]
fn header_v2_rejects_bad_magic() {
    let bytes = [0u8; 32];
    assert!(matches!(HeaderV2::from_bytes(&bytes), Err(Error::InvalidFormat(_))));
}

#[test]
fn checkpoints_come_every_n_frames() {
    let config = StreamConfig { checkpoint_frames: 2, checkpoint_bytes: 1 << 30, enable_sha256: false };
    let mut writer = ContainerWriterV2::new(config)
        .unwrap()
        .with_compression(octaindex3d::compression::Codec::Stored(octaindex3d::compression::NoCompression))
        .unwrap();
    for i in 0..5u8 {
        writer.write_frame(&[i; 10]).unwrap();
    }
    let bytes = writer.finish().unwrap();
    // header, five 26-byte frame records, checkpoints of 2 and 4 entries, then the final one of 5.
    assert_eq!(bytes.len(), 32 + 5 * 26 + (2 * 32 + 32) + (4 * 32 + 32) + (5 * 32 + 32));
}

#[test]
fn container_errors_read_as_documented() {
    let mut bytes = b"OCTA3D\0\0".to_vec();
    bytes.push(FORMAT_VERSION + 1);
    bytes.extend_from_slice(&[0u8; 7]);
    match ContainerReader::open(bytes) {
        Err(Error::InvalidFormat(m)) => assert_eq!(m, format!("Unsupported format version: {}", FORMAT_VERSION + 1)),
        other => panic!("unexpected {:?}", other.is_ok()),
    }
    let r = octaindex3d::ids::Route64::new(0, 1 << 20, 0, 0);
    assert!(matches!(r, Err(Error::OutOfRange(m)) if m == "x=1048576 out of 20-bit range"));
}

#[test]
fn frame_header_carries_crc32_of_payload() {
    let mut writer = ContainerWriter::with_compression(Codec::Stored(NoCompression)).unwrap();
    writer.write_frame(b"123456789").unwrap();
    let buffer = writer.finish().unwrap();
    assert_eq!(&buffer[28..32], &0xCBF4_3926u32.to_be_bytes());
    assert_eq!(&buffer[32..41], b"123456789");
}

#[test]
fn header_v2_keeps_given_stream_id() {
    let h = HeaderV2::with_stream_id(true, 1_700_000_000_123_456_789);
    assert_eq!(h.stream_id, 1_700_000_000_123_456_789);
    assert!(h.has_sha256());
    assert_eq!(&h.to_bytes()[0..8], b"OCTA3D2\0");
    assert!(!HeaderV2::with_stream_id(false, 7).has_sha256());
}
