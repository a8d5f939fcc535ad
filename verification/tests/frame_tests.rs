use octaindex3d::error::Error;
use octaindex3d::frame::{FrameDescriptor, FrameRegistry};

fn unit(v: f64) -> u64 {
    v.to_bits()
}

#[test]
fn frame_registration() {
    let mut reg = FrameRegistry::new();
    let desc = FrameDescriptor::new("TEST", "WGS-84", "Test frame", true, unit(1.0));
    reg.register(100, desc).unwrap();
    let retrieved = reg.get(100).unwrap();
    assert_eq!(retrieved.name, "TEST");
}

#[test]
fn frame_conflict() {
    let mut reg = FrameRegistry::new();
    let desc1 = FrameDescriptor::new("TEST1", "WGS-84", "Test frame 1", true, unit(1.0));
    let desc2 = FrameDescriptor::new("TEST2", "WGS-84", "Test frame 2", true, unit(2.0));
    reg.register(101, desc1).unwrap();
    let result = reg.register(101, desc2);
    assert_eq!(result, Err(Error::FrameConflict(101)));
    assert_eq!(reg.get(101).unwrap().name, "TEST1");
}

#[test]
fn idempotent_registration() {
    let mut reg = FrameRegistry::new();
    reg.register(102, FrameDescriptor::new("TEST3", "WGS-84", "Test frame 3", true, unit(1.0))).unwrap();
    reg.register(102, FrameDescriptor::new("TEST3", "WGS-84", "Test frame 3", true, unit(1.0))).unwrap();
    reg.register(102, FrameDescriptor::new("TEST3", "WGS-84", "another text", true, unit(1.0))).unwrap();
    assert_eq!(reg.get(102).unwrap().description, "Test frame 3");
}

#[test]
fn default_frame() {
    let reg = FrameRegistry::new();
    let frame = reg.get(0).unwrap();
    assert_eq!(frame.name, "ECEF");
    assert_eq!(frame.datum, "WGS-84");
    assert!(frame.right_handed);
    assert_eq!(frame.base_unit_bits, unit(1.0));
    assert_eq!(reg.ids(), vec![0]);
}

#[test]
fn unknown_frame_is_refused() {
    let reg = FrameRegistry::new();
    assert!(matches!(reg.get(7), Err(Error::InvalidFrameID(7))));
    assert!(!reg.contains(7));
}
