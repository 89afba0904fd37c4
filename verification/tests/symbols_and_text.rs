//! Symbol handling, sounds, and text rendering.

use stonktop::audio::AlertSound;
use stonktop::fmt::{fp_to_string_2dp, format_volume, truncate_string, u64_to_string};
use stonktop::parse::parse_price;
use stonktop::symbol::{expand_symbol, validate};

#[test]
fn test_expand_symbol_crypto_shorthand() {
    assert_eq!(expand_symbol("BTC.X"), "BTC-USD");
    assert_eq!(expand_symbol("ETH.X"), "ETH-USD");
}

#[test]
fn test_expand_symbol_crypto_shortcuts() {
    assert_eq!(expand_symbol("BTC"), "BTC-USD");
    assert_eq!(expand_symbol("ETH"), "ETH-USD");
}

#[test]
fn test_expand_symbol_stock() {
    assert_eq!(expand_symbol("AAPL"), "AAPL");
    assert_eq!(expand_symbol("GOOGL"), "GOOGL");
}

#[test]
fn test_validate_canonical_symbols() {
    assert!(validate("AAPL"));
    assert!(validate("BRK-B"));
    assert!(validate("BTC-USD"));
    assert!(validate("^GSPC"));
    assert!(validate("EURUSD=X"));
}

#[test]
fn test_validate_rejects_bad_symbols() {
    assert!(!validate(""));
    assert!(!validate("WAYTOOLONGSYMBOL"));
    assert!(!validate("bad sym"));
    assert!(!validate("bad/sym"));
    assert!(!validate("q?a"));
    assert!(!validate("a&b"));
    assert!(!validate("a%b"));
    assert!(!validate("é"));
}

#[test]
fn test_alert_sound_variants() {
    let _single = AlertSound::Single;
    let _double = AlertSound::Double;
    let _triple = AlertSound::Triple;
}

#[test]
fn test_alert_sound_equality() {
    assert_eq!(AlertSound::Single, AlertSound::Single);
    assert_ne!(AlertSound::Single, AlertSound::Double);
}

#[test]
fn test_alert_sound_beep_counts() {
    assert_eq!(AlertSound::Single.beep_count(), 1);
    assert_eq!(AlertSound::Double.beep_count(), 2);
    assert_eq!(AlertSound::Triple.beep_count(), 3);
}

#[test]
fn test_format_volume() {
    assert_eq!(format_volume(0), "0");
    assert_eq!(format_volume(1_000), "1.0K");
    assert_eq!(format_volume(1_000_000), "1.0M");
    assert_eq!(format_volume(1_000_000_000), "1.0B");
}

#[test]
fn test_format_volume_mixed() {
    assert_eq!(format_volume(999), "999");
    assert_eq!(format_volume(1_234_567), "1.2M");
    assert_eq!(format_volume(2_500_000_000), "2.5B");
}

#[test]
fn test_u64_to_string_digits() {
    assert_eq!(u64_to_string(0), "0");
    assert_eq!(u64_to_string(7), "7");
    assert_eq!(u64_to_string(1234567890), "1234567890");
}

#[test]
fn test_fp_to_string_two_decimals() {
    assert_eq!(fp_to_string_2dp(1_500_000), "150.00");
    assert_eq!(fp_to_string_2dp(12_345), "1.23");
    assert_eq!(fp_to_string_2dp(-25_000), "-2.50");
    assert_eq!(fp_to_string_2dp(0), "0.00");
}

#[test]
fn test_truncate_string_marks_cut() {
    assert_eq!(truncate_string("hello", 10), "hello");
    assert_eq!(truncate_string("hello", 3), "he…");
    assert_eq!(truncate_string("hello", 0), "…");
}

#[test]
fn test_parse_price_values() {
    assert_eq!(parse_price("100"), Some(1_000_000));
    assert_eq!(parse_price("123.45"), Some(1_234_500));
    assert_eq!(parse_price("0.0001"), Some(1));
    assert_eq!(parse_price(".5"), Some(5_000));
    assert_eq!(parse_price("2."), Some(20_000));
    assert_eq!(parse_price("1.23456"), Some(12_345));
}

#[test]
fn test_parse_price_rejects_bad_input() {
    assert_eq!(parse_price(""), None);
    assert_eq!(parse_price("."), None);
    assert_eq!(parse_price("abc"), None);
    assert_eq!(parse_price("1.2.3"), None);
    assert_eq!(parse_price("-5"), None);
    assert_eq!(parse_price("99999999999999999999"), None);
}
