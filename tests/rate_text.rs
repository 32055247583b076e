use vio::schedule::FrameRate;

#[test]
fn parses_whole_rate() {
    assert_eq!(FrameRate::parse("24"), Some(FrameRate { num: 24, den: 1 }));
}

#[test]
fn parses_fractional_rate() {
    assert_eq!(FrameRate::parse("23.976"), Some(FrameRate { num: 23976, den: 1000 }));
    assert_eq!(FrameRate::parse("24.0"), Some(FrameRate { num: 240, den: 10 }));
    assert_eq!(FrameRate::parse("0.5"), Some(FrameRate { num: 5, den: 10 }));
}

#[test]
fn parses_nine_fraction_digits() {
    assert_eq!(
        FrameRate::parse("1.000000001"),
        Some(FrameRate { num: 1_000_000_001, den: 1_000_000_000 })
    );
    assert_eq!(FrameRate::parse("1.0000000001"), None);
}

#[test]
fn rejects_malformed_rates() {
    for text in ["", ".", "24.", ".5", "2.4.1", "24fps", "-24", "2 4", "0", "0.000"] {
        assert_eq!(FrameRate::parse(text), None, "{}", text);
    }
}

#[test]
fn rejects_rates_beyond_64_bits() {
    assert_eq!(
        FrameRate::parse("18446744073709551615"),
        Some(FrameRate { num: u64::MAX, den: 1 })
    );
    assert_eq!(FrameRate::parse("18446744073709551616"), None);
    assert_eq!(FrameRate::parse("1844674407370955161.6"), None);
}
