use propdump::coord::{coord_from_bytes, coord_to_num, float_to_whole, CoordError};

#[test]
fn directions_give_the_sign() {
    assert_eq!(coord_to_num("10N"), Ok(10));
    assert_eq!(coord_to_num("10S"), Ok(-10));
    assert_eq!(coord_to_num("5.7E"), Ok(-5));
    assert_eq!(coord_to_num("5.7W"), Ok(5));
    assert_eq!(coord_to_num("10n"), Ok(10));
    assert_eq!(coord_to_num("10s"), Ok(-10));
    assert_eq!(coord_to_num("5.7e"), Ok(-5));
    assert_eq!(coord_to_num("5.7w"), Ok(5));
}

#[test]
fn magnitudes_are_cut_toward_zero() {
    assert_eq!(coord_to_num("0N"), Ok(0));
    assert_eq!(coord_to_num("0S"), Ok(0));
    assert_eq!(coord_to_num("0.999N"), Ok(0));
    assert_eq!(coord_to_num(".5N"), Ok(0));
    assert_eq!(coord_to_num("7.N"), Ok(7));
    assert_eq!(coord_to_num("007.25N"), Ok(7));
    assert_eq!(coord_to_num("12.99S"), Ok(-12));
    assert_eq!(coord_to_num("-12.99N"), Ok(-12));
    assert_eq!(coord_to_num("-12.99S"), Ok(12));
    assert_eq!(coord_to_num("+12.99S"), Ok(-12));
    assert_eq!(coord_to_num("-0.5N"), Ok(0));
}

#[test]
fn exponents_move_the_point() {
    assert_eq!(coord_to_num("1e3N"), Ok(1000));
    assert_eq!(coord_to_num("1.5E2N"), Ok(150));
    assert_eq!(coord_to_num("12345e-2N"), Ok(123));
    assert_eq!(coord_to_num("12399e-2S"), Ok(-123));
    assert_eq!(coord_to_num("1e-1N"), Ok(0));
    assert_eq!(coord_to_num("0.00012e+5N"), Ok(12));
    assert_eq!(coord_to_num("1e0N"), Ok(1));
    assert_eq!(coord_to_num("0e99999999999999999999999999999999999999N"), Ok(0));
    assert_eq!(coord_to_num("1e99999999999999999999999999999999999999N"), Ok(32767));
    assert_eq!(coord_to_num("1e-99999999999999999999999999999999999999N"), Ok(0));
    assert_eq!(coord_to_num("123456789e-99999999999999999999999999999999999999S"), Ok(0));
    assert_eq!(coord_to_num("32767e0000000000000000000000000000000000000000N"), Ok(32767));
    assert_eq!(coord_to_num("0.000000000000000000000000000000000001e36N"), Ok(1));
    assert_eq!(coord_to_num("1000000000000000000000000000000000000e-36N"), Ok(1));
}

#[test]
fn magnitudes_stop_at_the_ends_of_the_range() {
    assert_eq!(coord_to_num("32767N"), Ok(32767));
    assert_eq!(coord_to_num("32768N"), Ok(32767));
    assert_eq!(coord_to_num("99999999999999999999999999999999999999999999N"), Ok(32767));
    assert_eq!(coord_to_num("32768S"), Ok(-32767));
    assert_eq!(coord_to_num("32767.9E"), Ok(-32767));
    assert_eq!(coord_to_num("-32767N"), Ok(-32767));
    assert_eq!(coord_to_num("-32768N"), Ok(-32768));
    assert_eq!(coord_to_num("-32769N"), Ok(-32768));
    assert_eq!(coord_to_num("-1e9W"), Ok(-32768));
    assert_eq!(coord_to_num("-32767.999W"), Ok(-32767));
    assert_eq!(coord_to_num("-32767.9999W"), Ok(-32768));
    assert_eq!(coord_to_num("-32767S"), Ok(32767));
}

#[test]
fn numbers_that_are_not_finite() {
    assert_eq!(coord_to_num("infN"), Ok(32767));
    assert_eq!(coord_to_num("InfinityW"), Ok(32767));
    assert_eq!(coord_to_num("+INFs"), Ok(-32767));
    assert_eq!(coord_to_num("-infN"), Ok(-32768));
    assert_eq!(coord_to_num("nanN"), Ok(0));
    assert_eq!(coord_to_num("-NaNs"), Ok(0));
}

#[test]
fn the_lowest_coordinate_has_no_opposite() {
    assert_eq!(coord_to_num("-32768S"), Err(CoordError::Range));
    assert_eq!(coord_to_num("-40000e"), Err(CoordError::Range));
    assert_eq!(coord_to_num("-infS"), Err(CoordError::Range));
    assert_eq!(coord_to_num("-32767.9999E"), Err(CoordError::Range));
}

#[test]
fn malformed_tokens_say_what_is_wrong() {
    assert_eq!(coord_to_num(""), Err(CoordError::Indicator));
    assert_eq!(coord_to_num("N"), Err(CoordError::Magnitude));
    assert_eq!(coord_to_num(".N"), Err(CoordError::Magnitude));
    assert_eq!(coord_to_num("+N"), Err(CoordError::Magnitude));
    assert_eq!(coord_to_num("1.2.3N"), Err(CoordError::Magnitude));
    assert_eq!(coord_to_num("--5N"), Err(CoordError::Magnitude));
    assert_eq!(coord_to_num("1eN"), Err(CoordError::Magnitude));
    assert_eq!(coord_to_num("1e+N"), Err(CoordError::Magnitude));
    assert_eq!(coord_to_num("e5N"), Err(CoordError::Magnitude));
    assert_eq!(coord_to_num("infiN"), Err(CoordError::Magnitude));
    assert_eq!(coord_to_num("12 N"), Err(CoordError::Magnitude));
    assert_eq!(coord_to_num(" 12N"), Err(CoordError::Magnitude));
    assert_eq!(coord_to_num("10X"), Err(CoordError::Indicator));
    assert_eq!(coord_to_num("10"), Err(CoordError::Indicator));
    assert_eq!(coord_to_num("7"), Err(CoordError::Magnitude));
    assert_eq!(coord_to_num("10\r"), Err(CoordError::Indicator));
    assert_eq!(coord_to_num("10\u{17f}"), Err(CoordError::Magnitude));
    assert_eq!(coord_from_bytes(&[b'1', 0xFF]), Err(CoordError::Indicator));
    assert_eq!(coord_from_bytes(&[0xFF, b'N']), Err(CoordError::Magnitude));
    assert_eq!(coord_from_bytes(b"12w"), Ok(12));
    assert_eq!(coord_to_num("10N\r"), Err(CoordError::Magnitude));
    // A bad magnitude is told before a bad direction.
    assert_eq!(coord_to_num("1x0X"), Err(CoordError::Magnitude));
    // The last byte is the direction, whatever stands before it.
    assert_eq!(coord_to_num("1e"), Ok(-1));
    assert_eq!(coord_to_num("1.5e"), Ok(-1));
    assert_eq!(coord_to_num("1e5"), Err(CoordError::Magnitude));
    assert_eq!(coord_to_num("inf"), Err(CoordError::Magnitude));
}

/// What the magnitude comes to when it is read as a single-precision number
/// and cut down to a whole number.
fn by_float(magnitude: &str) -> Option<i16> {
    magnitude.parse::<f32>().ok().map(|number| number as i16)
}

const MAGNITUDES: [&str; 118] = [
    "0",
    "1",
    "0.5",
    "0.9999999",
    "0.99999997",
    "0.999999970197677612304687",
    "0.9999999701976776123046875",
    "0.99999997019767761230468750000000000001",
    "0.999999970197677612304687499999999999999999",
    "0.99999998",
    "0.99999999999",
    "1.9999999",
    "1.99999994",
    "1.999999940395355224609375",
    "1.99999994039535522460937499",
    "2.9999998",
    "2.9999999",
    "3.9999998",
    "9.9999995",
    "9.9999999",
    "9.99999952316284179687499",
    "9.999999523162841796875",
    "15.9999995",
    "16.999999",
    "16.9999995",
    "100.999996",
    "100.999997",
    "1023.99997",
    "1023.99996",
    "1024.9999",
    "1024.99994",
    "4095.9999",
    "4096.9997",
    "4096.9998",
    "16383.9995",
    "16383.9996",
    "16384.999",
    "16384.9991",
    "32766.999",
    "32766.9990234375",
    "32766.99902343749999999999999999",
    "32766.9990234374",
    "32766.9995",
    "32767",
    "32767.5",
    "32767.998",
    "32767.9990234375",
    "32767.99902343749",
    "32767.9999",
    "32768",
    "40000",
    "5.7",
    "12.000000001",
    "255.99999237060546875",
    "255.999992370605468749",
    "255.99999",
    "",
    ".",
    "+",
    "-",
    "+.",
    "1.",
    ".1",
    "+1",
    "-1",
    "+-1",
    "1e",
    "1e+",
    "1e-",
    "1e5",
    "1E5",
    "1e+5",
    "1e-5",
    "1.e5",
    ".1e5",
    ".e5",
    "e5",
    "1e5.5",
    "1e5e5",
    "1.5e3",
    "99999e-1",
    "327679999e-4",
    "3276799999e-5",
    "0.0000327679999e9",
    "0.00000000000000000000000000000000000000000000000001e50",
    "0.00000000000000000000000000000000000000000000000001e49",
    "9999999999999999999999999999999999999999999999999999e-50",
    "99999999999999999999999999999999999999999999999999e-50",
    "0.999999999999999999999999999999999999999999999e0",
    "0.0999999999999999999999999999999999999999999999e1",
    "9.99999999999999999999999999999999999999e-1",
    "9.9999996e-1",
    "9.9999997e-1",
    "99999997e-8",
    "0.000000000000000000000000099999997e25",
    "0.000000000000000000000000099999996e25",
    "1e38",
    "1e39",
    "1e-45",
    "1e-46",
    "4e4",
    "3.2767e4",
    "3.27679999e4",
    "3.2768e4",
    "0e0",
    "0e-0",
    "0.0e+100",
    "inf",
    "INF",
    "Infinity",
    "infinit",
    "infinityy",
    "nan",
    "NaN",
    "nana",
    "1_0",
    "0x10",
    "1f",
];

#[test]
fn magnitudes_agree_with_single_precision() {
    for magnitude in MAGNITUDES.iter() {
        assert_eq!(float_to_whole(magnitude.as_bytes()), by_float(magnitude), "{:?}", magnitude);
        let signed = format!("-{}", magnitude);
        assert_eq!(float_to_whole(signed.as_bytes()), by_float(&signed), "{:?}", signed);
        let signed = format!("+{}", magnitude);
        assert_eq!(float_to_whole(signed.as_bytes()), by_float(&signed), "{:?}", signed);
    }
}

#[test]
fn coordinates_agree_with_single_precision() {
    for magnitude in MAGNITUDES.iter() {
        let expected = by_float(magnitude).ok_or(CoordError::Magnitude);
        let token = format!("{}N", magnitude);
        assert_eq!(coord_to_num(&token), expected, "{:?}", token);
        let token = format!("{}e", magnitude);
        assert_eq!(coord_to_num(&token), expected.map(|value| -value), "{:?}", token);
    }
}

#[test]
fn every_whole_number_below_its_successor() {
    // Just under each whole number: the nearest single-precision number is
    // the whole number itself, or the number before it.
    for whole in 0..32768u32 {
        for tail in ["9999", "9999999", "999999999"].iter() {
            let magnitude = format!("{}.{}", whole, tail);
            assert_eq!(float_to_whole(magnitude.as_bytes()), by_float(&magnitude), "{}", magnitude);
        }
    }
    for whole in (0..32768u32).step_by(16).chain(32700..32768u32) {
        for tail in ["99999", "999999", "99999999"].iter() {
            let magnitude = format!("-{}.{}e0", whole, tail);
            assert_eq!(float_to_whole(magnitude.as_bytes()), by_float(&magnitude), "{}", magnitude);
        }
    }
}

#[test]
fn the_point_may_lie_anywhere() {
    let digits = "327679999999";
    for exponent in -40..40i32 {
        let magnitude = format!("{}e{}", digits, exponent);
        assert_eq!(float_to_whole(magnitude.as_bytes()), by_float(&magnitude), "{}", magnitude);
        let magnitude = format!("0.000{}E{}", digits, exponent);
        assert_eq!(float_to_whole(magnitude.as_bytes()), by_float(&magnitude), "{}", magnitude);
        let magnitude = format!("-999.{}e{}", digits, exponent);
        assert_eq!(float_to_whole(magnitude.as_bytes()), by_float(&magnitude), "{}", magnitude);
    }
}
