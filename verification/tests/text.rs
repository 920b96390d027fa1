use chat_relay::text::find_space;
use chat_relay::text::str_eq;
use chat_relay::text::trim;
use chat_relay::text::u64_to_string;

#[test]
fn decimal_rendering_matches() {
    assert_eq!(u64_to_string(0), "0");
    assert_eq!(u64_to_string(7), "7");
    assert_eq!(u64_to_string(10), "10");
    assert_eq!(u64_to_string(90210), "90210");
    assert_eq!(u64_to_string(u64::MAX), "18446744073709551615");
}

#[test]
fn trim_strips_both_ends_only() {
    assert_eq!(trim("  a b \t\r\n"), "a b");
    assert_eq!(trim(""), "");
    assert_eq!(trim("   "), "");
    assert_eq!(trim("x"), "x");
}

#[test]
fn find_space_returns_first_space_or_length() {
    assert_eq!(find_space("ab cd ef"), 2);
    assert_eq!(find_space("abc"), 3);
    assert_eq!(find_space(" x"), 0);
}

#[test]
fn str_eq_compares_contents() {
    assert!(str_eq("room", "room"));
    assert!(!str_eq("room", "rooms"));
    assert!(!str_eq("", "a"));
}
