use roboprec::precision::{Precision, PrecisionError};
use std::str::FromStr;

#[test]
fn test_precision_parse_floats() {
    assert_eq!(Precision::parse("Float32"), Ok(Precision::Float32));
    assert_eq!(Precision::parse("Float64"), Ok(Precision::Float64));
}

#[test]
fn test_precision_parse_fixed_total_only() {
    assert_eq!(
        Precision::parse("Fixed32"),
        Ok(Precision::Fixed { total_bits: 32, fractional_bits: -1 })
    );
    assert_eq!(
        Precision::parse("Fixed+8"),
        Ok(Precision::Fixed { total_bits: 8, fractional_bits: -1 })
    );
}

#[test]
fn test_precision_parse_fixed_split() {
    assert_eq!(
        Precision::parse("Fixed16-8"),
        Ok(Precision::Fixed { total_bits: 24, fractional_bits: 8 })
    );
    assert_eq!(
        Precision::parse("Fixed16--3"),
        Ok(Precision::Fixed { total_bits: 13, fractional_bits: -3 })
    );
    assert_eq!(
        Precision::parse("Fixed0-0"),
        Ok(Precision::Fixed { total_bits: 0, fractional_bits: 0 })
    );
}

#[test]
fn test_precision_parse_errors() {
    assert_eq!(Precision::parse("Fixed"), Err(PrecisionError::InvalidTotalBits));
    assert_eq!(Precision::parse("Fixedx"), Err(PrecisionError::InvalidTotalBits));
    assert_eq!(Precision::parse("Fixed-5"), Err(PrecisionError::InvalidTotalBits));
    assert_eq!(Precision::parse("Fixed 5"), Err(PrecisionError::InvalidTotalBits));
    assert_eq!(Precision::parse("Fixed2147483648"), Err(PrecisionError::InvalidTotalBits));
    assert_eq!(Precision::parse("Fixed16-"), Err(PrecisionError::InvalidFractionalBits));
    assert_eq!(Precision::parse("Fixed16-x"), Err(PrecisionError::InvalidFractionalBits));
    assert_eq!(Precision::parse("Fixed16-8-2"), Err(PrecisionError::InvalidFractionalBits));
    assert_eq!(Precision::parse("Fixed2147483647-1"), Err(PrecisionError::TotalOutOfRange));
    assert_eq!(Precision::parse(""), Err(PrecisionError::UnknownFormat));
    assert_eq!(Precision::parse("float32"), Err(PrecisionError::UnknownFormat));
    assert_eq!(Precision::parse("Float32 "), Err(PrecisionError::UnknownFormat));
    assert_eq!(Precision::parse("Float16"), Err(PrecisionError::UnknownFormat));
    assert_eq!(Precision::parse("Fixe"), Err(PrecisionError::UnknownFormat));
}

#[test]
fn test_precision_text() {
    assert_eq!(Precision::Float32.to_text(), "Float32");
    assert_eq!(Precision::Float64.to_text(), "Float64");
    assert_eq!(Precision::Fixed { total_bits: 32, fractional_bits: -1 }.to_text(), "Fixed32");
    assert_eq!(Precision::Fixed { total_bits: 24, fractional_bits: 8 }.to_text(), "Fixed16-8");
    assert_eq!(Precision::Fixed { total_bits: 13, fractional_bits: -3 }.to_text(), "Fixed16--3");
    assert_eq!(
        Precision::Fixed { total_bits: i32::MAX, fractional_bits: i32::MIN }.to_text(),
        "Fixed4294967295--2147483648"
    );
}

#[test]
fn test_precision_round_trip() {
    let formats = vec![
        Precision::Float32,
        Precision::Float64,
        Precision::Fixed { total_bits: 0, fractional_bits: -1 },
        Precision::Fixed { total_bits: 32, fractional_bits: -1 },
        Precision::Fixed { total_bits: i32::MAX, fractional_bits: -1 },
        Precision::Fixed { total_bits: 32, fractional_bits: 16 },
        Precision::Fixed { total_bits: 16, fractional_bits: 16 },
        Precision::Fixed { total_bits: 8, fractional_bits: -7 },
        Precision::Fixed { total_bits: i32::MAX, fractional_bits: 0 },
        Precision::Fixed { total_bits: -2, fractional_bits: -2 },
    ];
    for p in formats {
        assert_eq!(Precision::parse(&p.to_text()), Ok(p));
    }
}

#[test]
fn test_precision_text_that_does_not_read_back() {
    let negative_total = Precision::Fixed { total_bits: -5, fractional_bits: -1 };
    assert_eq!(negative_total.to_text(), "Fixed-5");
    assert_eq!(Precision::parse("Fixed-5"), Err(PrecisionError::InvalidTotalBits));
    let more_fraction = Precision::Fixed { total_bits: 2, fractional_bits: 5 };
    assert_eq!(more_fraction.to_text(), "Fixed-3-5");
    assert_eq!(Precision::parse("Fixed-3-5"), Err(PrecisionError::InvalidTotalBits));
}

#[test]
fn test_precision_from_str() {
    assert_eq!(Precision::from_str("Float64"), Ok(Precision::Float64));
    assert_eq!(
        Precision::from_str("Fixed32"),
        Ok(Precision::Fixed { total_bits: 32, fractional_bits: -1 })
    );
    assert_eq!(
        Precision::from_str("Fixed16-8"),
        Ok(Precision::Fixed { total_bits: 24, fractional_bits: 8 })
    );
    assert_eq!(Precision::from_str("Fixedx"), Err("Invalid total bits".to_string()));
    assert_eq!(Precision::from_str("Fixed1-x"), Err("Invalid fractional bits".to_string()));
    assert_eq!(
        Precision::from_str("Half"),
        Err("Unknown precision format: Half".to_string())
    );
}

#[test]
fn test_precision_from_str_says_why_a_text_is_refused() {
    assert_eq!(
        Precision::from_str("Fixed2147483647-1"),
        Err("Invalid total bits".to_string())
    );
    assert_eq!(Precision::from_str("Fixed-"), Err("Invalid total bits".to_string()));
    assert_eq!(Precision::from_str(""), Err("Unknown precision format: ".to_string()));
    assert_eq!(
        Precision::from_str("float32"),
        Err("Unknown precision format: float32".to_string())
    );
    assert_eq!(Precision::from_str("Float32"), Ok(Precision::Float32));
}
