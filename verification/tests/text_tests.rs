use octaindex3d::error::Error;
use octaindex3d::ids::{Galactic128, Index64, Route64};
use octaindex3d::id::CellID;
use octaindex3d::text::parse_raw_value;

fn std_raw_value(value: &str) -> Result<u64, String> {
    if let Some(stripped) = value.strip_prefix("0x") {
        u64::from_str_radix(stripped, 16).map_err(|_| "Invalid hex value".to_string())
    } else {
        value.parse::<u64>().map_err(|_| "Invalid decimal value".to_string())
    }
}

fn lib_raw_value(value: &str) -> Result<u64, String> {
    match parse_raw_value(value) {
        Ok(v) => Ok(v),
        Err(Error::OutOfRange(m)) => Err(m),
        Err(other) => panic!("unexpected {:?}", other),
    }
}

#[test]
fn raw_values_read_as_the_standard_library_reads_them() {
    let inputs = [
        "0", "42", "+42", "-1", "", "+", "0x", "0x+", "0x1f", "0xFF", "0xdeadBEEF", "0x+10", "0X10", "0x-1",
        "18446744073709551615", "18446744073709551616", "0xffffffffffffffff", "0x10000000000000000", " 5", "5 ",
        "12a", "0xg", "00000000000000000000000000001", "0x00000000000000000000000000ff", "٣",
    ];
    for s in inputs {
        assert_eq!(lib_raw_value(s), std_raw_value(s), "input {:?}", s);
    }
    assert_eq!(parse_raw_value("0x1f"), Ok(31));
    assert_eq!(parse_raw_value("255"), Ok(255));
}

#[test]
fn identifiers_print_as_their_fields() {
    let g = Galactic128::new(3, 1, 2, 7, 0, -5, 13, -301).unwrap();
    let expected = format!(
        "G128(f={}, t={}:{}, lod={}, {},{},{})",
        g.frame_id(),
        g.scale_tier(),
        g.scale_mant(),
        g.lod(),
        g.x(),
        g.y(),
        g.z()
    );
    assert_eq!(g.to_string(), expected);

    let i = Index64::new(2, 1, 9, 1000, 65535, 7).unwrap();
    let (x, y, z) = i.decode_coords();
    let expected = format!(
        "I64(f={}, t={}, lod={}, morton={:012x}, {},{},{})",
        i.frame_id(),
        i.scale_tier(),
        i.lod(),
        i.morton(),
        x,
        y,
        z
    );
    assert_eq!(i.to_string(), expected);
    assert_eq!(Index64::new(0, 0, 0, 0, 0, 0).unwrap().to_string(), "I64(f=0, t=0, lod=0, morton=000000000000, 0,0,0)");

    let r = Route64::new(2, -4, 6, -10).unwrap();
    assert_eq!(r.to_string(), "R64(t=2, -4,6,-10)");

    let c = CellID::from_coords(1, 5, -3, 1, 7).unwrap();
    assert_eq!(c.to_string(), "CellID(frame=1, res=5, x=-3, y=1, z=7)");
}
