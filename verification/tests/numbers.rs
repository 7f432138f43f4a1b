//! The tolerant text readers: decimals, booleans, colours, identifiers.

use taimi_markers::text::{
    ascii_lower, parse_bool, parse_color, parse_i32, parse_milli, parse_u_dec, taco_safe_name,
};

#[test]
fn milli_reads_fixed_point() {
    assert_eq!(parse_milli("1.5"), Some(1500));
    assert_eq!(parse_milli("-2.25"), Some(-2250));
    assert_eq!(parse_milli("10"), Some(10000));
    assert_eq!(parse_milli("0.1234"), Some(123));
    assert_eq!(parse_milli(".5"), Some(500));
    assert_eq!(parse_milli("5."), Some(5000));
    assert_eq!(parse_milli("-0"), Some(0));
}

#[test]
fn milli_rejects_junk() {
    assert_eq!(parse_milli(""), None);
    assert_eq!(parse_milli("."), None);
    assert_eq!(parse_milli("1.2.3"), None);
    assert_eq!(parse_milli("abc"), None);
    assert_eq!(parse_milli("1e5"), None);
    assert_eq!(parse_milli("1234567890123"), None);
}

#[test]
fn signed_and_unsigned_decimals() {
    assert_eq!(parse_i32("123"), Some(123));
    assert_eq!(parse_i32("-15"), Some(-15));
    assert_eq!(parse_i32("2147483647"), Some(i32::MAX));
    assert_eq!(parse_i32("2147483648"), None);
    assert_eq!(parse_i32("-2147483648"), Some(i32::MIN));
    assert_eq!(parse_i32("x"), None);
    assert_eq!(parse_u_dec("042"), Some(42));
    assert_eq!(parse_u_dec(""), None);
}

#[test]
fn booleans_are_tolerant() {
    assert_eq!(parse_bool("1"), Some(true));
    assert_eq!(parse_bool("TRUE"), Some(true));
    assert_eq!(parse_bool("0"), Some(false));
    assert_eq!(parse_bool("False"), Some(false));
    assert_eq!(parse_bool("maybe"), None);
}

#[test]
fn colors_pack_rgba() {
    assert_eq!(parse_color("ff0000"), Some(0xff0000ff));
    assert_eq!(parse_color("11223344"), Some(0x11223344));
    assert_eq!(parse_color("FFFFFF"), Some(0xffffffff));
    assert_eq!(parse_color("ff00"), None);
    assert_eq!(parse_color("gg0000"), None);
}

#[test]
fn identifiers_are_sanitised() {
    assert_eq!(taco_safe_name("a b.c", false), "a_b_c");
    assert_eq!(taco_safe_name("a b.c", true), "a_b.c");
    assert_eq!(taco_safe_name("Alpha7", true), "Alpha7");
    assert_eq!(ascii_lower("MarkerCategory"), "markercategory");
    assert_eq!(ascii_lower("ÜBER"), "Über");
}
