use octaindex3d::coord_text::parse_coord;

fn std_parse_coord(s: &str) -> Result<(i32, i32, i32), String> {
    let parts: Vec<&str> = s.split(',').collect();
    if parts.len() != 3 {
        return Err("Coordinate must be in format x,y,z".to_string());
    }
    let x = parts[0].trim().parse::<i32>().map_err(|_| "Invalid x coordinate")?;
    let y = parts[1].trim().parse::<i32>().map_err(|_| "Invalid y coordinate")?;
    let z = parts[2].trim().parse::<i32>().map_err(|_| "Invalid z coordinate")?;
    Ok((x, y, z))
}

#[test]
fn parses_plain_and_padded_coordinates() {
    assert_eq!(parse_coord("1,2,3"), Ok((1, 2, 3)));
    assert_eq!(parse_coord(" -4 , +5,\t6 \n"), Ok((-4, 5, 6)));
    assert_eq!(parse_coord("\u{3000}7,8\u{2003},9"), Ok((7, 8, 9)));
    assert_eq!(parse_coord("-2147483648,2147483647,0"), Ok((i32::MIN, i32::MAX, 0)));
    assert_eq!(parse_coord("007,-00,+0"), Ok((7, 0, 0)));
}

#[test]
fn reports_the_first_fault() {
    let format = Err("Coordinate must be in format x,y,z".to_string());
    assert_eq!(parse_coord(""), format);
    assert_eq!(parse_coord("1,2"), format);
    assert_eq!(parse_coord("1,2,3,4"), format);
    assert_eq!(parse_coord("a,b,c"), Err("Invalid x coordinate".to_string()));
    assert_eq!(parse_coord("1,,3"), Err("Invalid y coordinate".to_string()));
    assert_eq!(parse_coord("1,2 3,4"), Err("Invalid y coordinate".to_string()));
    assert_eq!(parse_coord("1,2,2147483648"), Err("Invalid z coordinate".to_string()));
    assert_eq!(parse_coord("+,1,1"), Err("Invalid x coordinate".to_string()));
    assert_eq!(parse_coord("1,-,1"), Err("Invalid y coordinate".to_string()));
    assert_eq!(parse_coord("99999999999999999999,1,1"), Err("Invalid x coordinate".to_string()));
}

#[test]
fn agrees_with_the_standard_library_parser() {
    let pieces = [
        "", " ", "0", "12", "-7", "+3", "--1", "+-2", "1 2", " 42 ", "\t-9\u{a0}", "2147483647", "2147483648",
        "-2147483648", "-2147483649", "x", "٣", "1e3", "0x10", "\u{85}5\u{2028}",
    ];
    for a in pieces {
        for b in pieces {
            for c in ["5", " -6 ", "z"] {
                let s = format!("{},{},{}", a, b, c);
                assert_eq!(parse_coord(&s), std_parse_coord(&s), "input {:?}", s);
            }
            let two = format!("{},{}", a, b);
            assert_eq!(parse_coord(&two), std_parse_coord(&two), "input {:?}", two);
        }
    }
}
