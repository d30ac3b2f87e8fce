use vibe_guardian::ids::dec_string;
use vibe_guardian::ids::make_id;
use vibe_guardian::ids::numbered_name;
use vibe_guardian::ids::parse_generated_id;

#[test]
fn renders_small_numbers() {
    assert_eq!(dec_string(0), "0");
    assert_eq!(dec_string(7), "7");
    assert_eq!(dec_string(10), "10");
    assert_eq!(dec_string(42), "42");
    assert_eq!(dec_string(90210), "90210");
}

#[test]
fn renders_largest_value() {
    assert_eq!(dec_string(u64::MAX), "18446744073709551615");
}

#[test]
fn renders_identifiers() {
    assert_eq!(make_id(0), "cp_0");
    assert_eq!(make_id(123), "cp_123");
}

#[test]
fn renders_numbered_names() {
    assert_eq!(numbered_name("Session ", 1), "Session 1");
    assert_eq!(numbered_name("Quick Save ", 12), "Quick Save 12");
}

#[test]
fn parses_generated_identifiers() {
    assert_eq!(parse_generated_id("cp_0"), Some(0));
    assert_eq!(parse_generated_id("cp_123"), Some(123));
    assert_eq!(parse_generated_id("cp_18446744073709551615"), Some(u64::MAX));
}

#[test]
fn rejects_foreign_identifiers() {
    assert_eq!(parse_generated_id(""), None);
    assert_eq!(parse_generated_id("cp_"), None);
    assert_eq!(parse_generated_id("cp"), None);
    assert_eq!(parse_generated_id("xp_1"), None);
    assert_eq!(parse_generated_id("cp_01"), None);
    assert_eq!(parse_generated_id("cp_1a"), None);
    assert_eq!(parse_generated_id("cp_x"), None);
    // one past the largest value that fits
    assert_eq!(parse_generated_id("cp_18446744073709551616"), None);
    assert_eq!(parse_generated_id("cp_99999999999999999999999"), None);
}

#[test]
fn round_trips_through_parse() {
    for n in [0u64, 1, 9, 10, 99, 100, 4096, u64::MAX] {
        assert_eq!(parse_generated_id(&make_id(n)), Some(n));
    }
}
