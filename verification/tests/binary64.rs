use lkjscript_platform::binary64::{is_decimal, Binary64, CANONICAL_NAN_BITS};

/// The bit pattern of the nearest binary64 to a decimal text, as the text parser computes it.
fn nearest_bits(text: &str) -> Option<u64> {
    text.parse::<f64>().ok().map(f64::to_bits)
}

fn parse(text: &str) -> Option<Binary64> {
    Binary64::parse(text, nearest_bits(text))
}

#[test]
fn binary64_decimal_admission_uses_fixed_rounding_expectations() {
    for (text, bits) in [
        ("1.00000000000000011102230246251565404236316680908203125", 0x3ff0_0000_0000_0000),
        ("1.00000000000000033306690738754696212708950042724609375", 0x3ff0_0000_0000_0002),
        ("9007199254740993", 0x4340_0000_0000_0000),
        ("5e-324", 1),
        ("-1e-400", 0x8000_0000_0000_0000),
        ("-0.0", 0x8000_0000_0000_0000),
        ("1.7976931348623157e308", 0x7fef_ffff_ffff_ffff),
    ] {
        assert_eq!(parse(text).unwrap().bits(), bits, "{text}");
    }
    for text in [
        "", " 1", "1 ", "+1", "01", "-01", ".1", "1.", "1e", "1e+", "NaN", "-nan", "Infinity", "0x1", "1_0",
        "1,5", "1e400",
    ] {
        assert_eq!(parse(text), None, "{text}");
    }
}

#[test]
fn binary64_bits_are_strict_about_nan() {
    for bits in [
        0,
        0x8000_0000_0000_0000,
        1,
        0x0010_0000_0000_0000,
        0x3ff0_0000_0000_0000,
        0x7fef_ffff_ffff_ffff,
        0x7ff0_0000_0000_0000,
        0xfff0_0000_0000_0000,
        CANONICAL_NAN_BITS,
    ] {
        assert_eq!(Binary64::from_bits(bits).unwrap().bits(), bits);
    }
    for bits in [0x7ff0_0000_0000_0001_u64, 0x7ff8_0000_0000_0001, 0xfff8_0000_0000_0000] {
        assert_eq!(Binary64::from_bits(bits), None);
    }
    let nan = parse("nan").unwrap();
    assert_eq!(nan.bits(), CANONICAL_NAN_BITS);
    assert_eq!(parse("inf").unwrap().bits(), 0x7ff0_0000_0000_0000);
    assert_eq!(parse("-inf").unwrap().bits(), 0xfff0_0000_0000_0000);
    assert_ne!(parse("0"), parse("-0"));
    assert_eq!(Binary64::default().bits(), 0);
}

#[test]
fn decimal_grammar_is_the_json_number_grammar() {
    for text in ["0", "-0", "12", "1.5", "1e5", "1E+5", "-1.25e-3", "10.0"] {
        assert!(is_decimal(text), "{text}");
    }
    for text in ["", "-", "00", "1.", ".5", "1e", "1e-", "+0", "1.5.2", "1ee5", "--1", "1 "] {
        assert!(!is_decimal(text), "{text}");
    }
}
