use octaindex3d::layers::ros2_bridge::PointCloud2;
use octaindex3d::layer::CellFlags;
use octaindex3d::layers::bcc_utils::{is_valid_bcc, snap_to_nearest_bcc};
use octaindex3d::layers::mesh::Triangle;
use octaindex3d::layers::ros2_bridge::Time;
use octaindex3d::layers::LayerType;

#[test]
fn test_flags() {
    let mut flags = CellFlags::empty();
    assert!(!flags.is_blocked());
    flags.set_flag(CellFlags::BLOCKED);
    assert!(flags.is_blocked());
    flags.clear_flag(CellFlags::BLOCKED);
    assert!(!flags.is_blocked());
}

#[test]
fn flags_are_independent() {
    let mut flags = CellFlags::new(CellFlags::WATER);
    flags.set_flag(CellFlags::NO_FLY);
    flags.clear_flag(CellFlags::WATER);
    assert!(flags.has_flag(CellFlags::NO_FLY));
    assert!(!flags.has_flag(CellFlags::WATER));
    assert!(!flags.has_flag(CellFlags::BOUNDARY));
    assert_eq!(flags.bits(), CellFlags::NO_FLY);
}

#[test]
fn test_layer_type_names() {
    assert_eq!(LayerType::TSDF.name(), "TSDF");
    assert_eq!(LayerType::ESDF.name(), "ESDF");
    assert_eq!(LayerType::Occupancy.name(), "Occupancy");
    assert_eq!(LayerType::Color.name(), "Color");
    assert_eq!(LayerType::Intensity.name(), "Intensity");
}

#[test]
fn test_snap_already_valid() {
    assert_eq!(snap_to_nearest_bcc(0, 0, 0), (0, 0, 0));
    assert_eq!(snap_to_nearest_bcc(2, 4, 6), (2, 4, 6));
    assert_eq!(snap_to_nearest_bcc(1, 1, 1), (1, 1, 1));
    assert_eq!(snap_to_nearest_bcc(3, 5, 7), (3, 5, 7));
}

#[test]
fn test_snap_mixed_parity() {
    assert_eq!(snap_to_nearest_bcc(5, 6, 7), (5, 7, 7));
    assert_eq!(snap_to_nearest_bcc(0, 1, 0), (0, 0, 0));
}

fn dist_sq(x: i32, y: i32, z: i32, p: (i32, i32, i32)) -> i32 {
    let (dx, dy, dz) = (x - p.0, y - p.1, z - p.2);
    dx * dx + dy * dy + dz * dz
}

#[test]
fn test_snap_error_bound() {
    for x in -10..10 {
        for y in -10..10 {
            for z in -10..10 {
                let (sx, sy, sz) = snap_to_nearest_bcc(x, y, z);
                assert!(is_valid_bcc(sx, sy, sz));
                let dist_sq = dist_sq(x, y, z, (sx, sy, sz));
                assert!(dist_sq <= 3);
            }
        }
    }
}

#[test]
fn snap_moves_at_most_one_step_and_is_nearest() {
    for x in -6..6 {
        for y in -6..6 {
            for z in -6..6 {
                let s = snap_to_nearest_bcc(x, y, z);
                let d = dist_sq(x, y, z, s);
                assert!(d <= 1);
                for qx in x - 2..=x + 2 {
                    for qy in y - 2..=y + 2 {
                        for qz in z - 2..=z + 2 {
                            if is_valid_bcc(qx, qy, qz) {
                                assert!(d <= dist_sq(x, y, z, (qx, qy, qz)));
                            }
                        }
                    }
                }
            }
        }
    }
}

#[test]
fn test_is_valid_bcc() {
    assert!(is_valid_bcc(0, 0, 0));
    assert!(is_valid_bcc(2, 4, 6));
    assert!(is_valid_bcc(1, 1, 1));
    assert!(is_valid_bcc(3, 5, 7));
    assert!(!is_valid_bcc(0, 1, 0));
    assert!(!is_valid_bcc(1, 2, 3));
    assert!(!is_valid_bcc(0, 0, 1));
}

#[test]
fn test_ros2_time() {
    let time = Time::now();
    assert!(time.sec > 0);
}

#[test]
fn time_from_unix_nanos_splits_seconds() {
    let t = Time::from_unix_nanos(3_500_000_001);
    assert_eq!((t.sec, t.nanosec), (3, 500_000_001));
    let t = Time::new(-1, 7);
    assert_eq!((t.sec, t.nanosec), (-1, 7));
}

#[test]
fn triangle_keeps_vertex_order() {
    let t = Triangle::new(4, 1, 9);
    assert_eq!(t.indices, [4, 1, 9]);
}

#[test]
fn test_layer_basic() {
    let mut layer = octaindex3d::layer::Layer::new("test");
    let cell = octaindex3d::id::CellID::from_coords(0, 5, 0, 0, 0).unwrap();

    layer.set(cell, 42.0);
    assert_eq!(layer.get(&cell), Some(&42.0));
    assert_eq!(layer.len(), 1);
}

#[test]
fn layer_read_after_write_and_remove() {
    let mut layer = octaindex3d::layer::Layer::new("heights");
    let a = octaindex3d::id::CellID::from_coords(0, 5, 0, 0, 0).unwrap();
    let b = octaindex3d::id::CellID::from_coords(0, 5, 2, 2, 2).unwrap();
    assert!(layer.is_empty());
    assert_eq!(layer.name(), "heights");
    layer.set(a, 1u32);
    layer.set(b, 2u32);
    layer.set(a, 3u32);
    assert_eq!(layer.get(&a), Some(&3));
    assert_eq!(layer.get(&b), Some(&2));
    assert_eq!(layer.len(), 2);
    assert!(layer.contains(&b));
    let mut ids = layer.cell_ids();
    ids.sort();
    let mut expected = vec![a, b];
    expected.sort();
    assert_eq!(ids, expected);
    let mut entries = layer.entries();
    entries.sort();
    let mut expected_entries = vec![(a, 3u32), (b, 2u32)];
    expected_entries.sort();
    assert_eq!(entries, expected_entries);
    assert_eq!(layer.remove(&a), Some(3));
    assert_eq!(layer.remove(&a), None);
    assert!(!layer.contains(&a));
    assert_eq!(layer.get(&a), None);
    assert_eq!(layer.len(), 1);
    layer.clear();
    assert!(layer.is_empty());
    assert_eq!(layer.name(), "heights");
}

#[test]
fn geojson_default_options() {
    let o = octaindex3d::geojson::GeoJsonOptions::default();
    assert!(o.include_properties);
    assert_eq!(o.precision, 7);
}

#[test]
fn point_cloud_layout() {
    let data: Vec<u8> = vec![0; 24];
    let c = PointCloud2::from_float32_points(data.clone(), 2, false, "map", Time::new(3, 4));
    assert_eq!((c.height, c.width, c.point_step, c.row_step), (1, 2, 12, 24));
    assert_eq!(c.fields.len(), 3);
    assert_eq!(c.fields[2].name, "z");
    assert_eq!(c.fields[2].offset, 8);
    assert_eq!(c.fields[2].datatype, 7);
    assert!(!c.is_bigendian && c.is_dense);
    assert_eq!(c.data, data);
    assert_eq!(c.header.frame_id, "map");
    let c = PointCloud2::from_float32_points(vec![0; 16], 1, true, "map", Time::new(0, 0));
    assert_eq!(c.fields.len(), 4);
    assert_eq!(c.fields[3].name, "intensity");
    assert_eq!((c.point_step, c.row_step), (16, 16));
}
