//! ROS2 message records: time stamps, headers and point clouds.

use vstd::prelude::*;
use crate::container_v2::unix_time_nanos;

verus! {

/// Nanoseconds in one second.
pub const NANOS_PER_SEC: u64 = 1_000_000_000;

/// ROS2 time (builtin_interfaces/Time).
#[derive(Debug, Clone, Copy, Default)]
pub struct Time {
    pub sec: i32,
    pub nanosec: u32,
}

impl Time {
    /// A time from seconds and nanoseconds.
    pub fn new(sec: i32, nanosec: u32) -> (r: Self)
        ensures
            r.sec == sec,
            r.nanosec == nanosec,
    {
        Self { sec, nanosec }
    }

    /// The time `nanos` nanoseconds after the Unix epoch: whole seconds
    /// (truncated to 32 bits) and the nanoseconds within the second.
    pub fn from_unix_nanos(nanos: u64) -> (r: Self)
        ensures
            r.sec == (nanos / NANOS_PER_SEC) as i32,
            r.nanosec == nanos % NANOS_PER_SEC,
    {
        let secs = nanos / NANOS_PER_SEC;
        Self { sec: secs as i32, nanosec: (nanos % NANOS_PER_SEC) as u32 }
    }

    /// The current system time.
    pub fn now() -> (r: Self)
        ensures
            r.nanosec < NANOS_PER_SEC,
    {
        Self::from_unix_nanos(unix_time_nanos())
    }
}

/// ROS2 message header (std_msgs/Header).
#[derive(Debug, Clone)]
pub struct Header {
    pub stamp: Time,
    pub frame_id: String,
}

/// Point field description (sensor_msgs/PointField).
#[derive(Debug, Clone)]
pub struct PointField {
    pub name: String,
    pub offset: u32,
    /// 1=INT8, 2=UINT8, 3=INT16, 4=UINT16, 5=INT32, 6=UINT32, 7=FLOAT32, 8=FLOAT64.
    pub datatype: u8,
    pub count: u32,
}

/// 3D point cloud (sensor_msgs/PointCloud2).
#[derive(Debug, Clone)]
pub struct PointCloud2 {
    pub header: Header,
    pub height: u32,
    pub width: u32,
    pub fields: Vec<PointField>,
    pub is_bigendian: bool,
    pub point_step: u32,
    pub row_step: u32,
    pub data: Vec<u8>,
    pub is_dense: bool,
}

/// PointField datatype code of a 32-bit float.
pub const FLOAT32: u8 = 7;

/// A single-count FLOAT32 field at `offset`.
pub open spec fn float_field(f: PointField, name: Seq<char>, offset: u32) -> bool {
    &&& f.name@ == name
    &&& f.offset == offset
    &&& f.datatype == FLOAT32
    &&& f.count == 1
}

fn float32_field(name: &str, offset: u32) -> (r: PointField)
    ensures
        float_field(r, name@, offset),
{
    PointField { name: name.to_owned(), offset, datatype: FLOAT32, count: 1 }
}

impl PointCloud2 {
    /// An unordered cloud (one row) of `point_count` points whose
    /// little-endian FLOAT32 coordinates x, y, z, and with `with_intensity`
    /// an intensity, are packed back to back in `data`.
    pub fn from_float32_points(data: Vec<u8>, point_count: u32, with_intensity: bool, frame_id: &str, stamp: Time) -> (r: Self)
        requires
            point_count * (if with_intensity { 16int } else { 12int }) <= u32::MAX,
        ensures
            r.header.stamp == stamp,
            r.header.frame_id@ == frame_id@,
            r.height == 1,
            r.width == point_count,
            r.point_step == (if with_intensity { 16u32 } else { 12u32 }),
            r.row_step == point_count * r.point_step,
            !r.is_bigendian,
            r.is_dense,
            r.data@ == data@,
            r.fields@.len() == (if with_intensity { 4int } else { 3int }),
            float_field(r.fields@[0], "x"@, 0),
            float_field(r.fields@[1], "y"@, 4),
            float_field(r.fields@[2], "z"@, 8),
            with_intensity ==> float_field(r.fields@[3], "intensity"@, 12),
    {
        let point_step: u32 = if with_intensity { 16 } else { 12 };
        let mut fields: Vec<PointField> = Vec::new();
        fields.push(float32_field("x", 0));
        fields.push(float32_field("y", 4));
        fields.push(float32_field("z", 8));
        if with_intensity {
            fields.push(float32_field("intensity", 12));
        }
        PointCloud2 {
            header: Header { stamp, frame_id: frame_id.to_owned() },
            height: 1,
            width: point_count,
            fields,
            is_bigendian: false,
            point_step,
            row_step: point_count * point_step,
            data,
            is_dense: true,
        }
    }
}

} // verus!
