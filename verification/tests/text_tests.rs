use abc_tsp::text::{find_byte, is_word, parse_billionths, parse_count, parse_digits, trim};

#[test]
fn find_byte_gives_the_first_place_or_the_length() {
    assert_eq!(find_byte(b"a=b=c", b'='), 1);
    assert_eq!(find_byte(b"=", b'='), 0);
    assert_eq!(find_byte(b"abc", b'='), 3);
    assert_eq!(find_byte(b"", b'='), 0);
}

#[test]
fn trim_drops_white_space_at_both_ends_only() {
    assert_eq!(trim(b"  a b \t\r\n"), b"a b");
    assert_eq!(trim(b"ab"), b"ab");
    assert_eq!(trim(b" \t "), b"");
    assert_eq!(trim(b""), b"");
    assert_eq!(trim(b"\x0b\x0cx\x0b\x0c"), b"x");
    assert_eq!(trim(b"\x08x\x0e"), b"\x08x\x0e");
}

#[test]
fn is_word_compares_every_byte() {
    assert!(is_word(b"Swap", "Swap"));
    assert!(!is_word(b"Swa", "Swap"));
    assert!(!is_word(b"Swapp", "Swap"));
    assert!(!is_word(b"swap", "Swap"));
    assert!(is_word(b"", ""));
    assert!(!is_word("\u{e9}".as_bytes(), "\u{e9}"));
    assert!(!is_word(b"\xe9", "\u{e9}"));
}

#[test]
fn parse_digits_respects_its_limit() {
    assert_eq!(parse_digits(b"", 10), Some(0));
    assert_eq!(parse_digits(b"10", 10), Some(10));
    assert_eq!(parse_digits(b"11", 10), None);
    assert_eq!(parse_digits(b"0010", 10), Some(10));
    assert_eq!(parse_digits(b"1a", 100), None);
    assert_eq!(parse_digits(b"18446744073709551615", u64::MAX), Some(u64::MAX));
    assert_eq!(parse_digits(b"18446744073709551616", u64::MAX), None);
    assert_eq!(parse_digits(b"7", 0), None);
    assert_eq!(parse_digits(b"0", 0), Some(0));
}

#[test]
fn parse_count_reads_digits_with_or_without_a_plus() {
    assert_eq!(parse_count(b"0"), Some(0));
    assert_eq!(parse_count(b"42"), Some(42));
    assert_eq!(parse_count(b"+42"), Some(42));
    assert_eq!(parse_count(b"007"), Some(7));
    assert_eq!(parse_count(b""), None);
    assert_eq!(parse_count(b"+"), None);
    assert_eq!(parse_count(b"-1"), None);
    assert_eq!(parse_count(b"++1"), None);
    assert_eq!(parse_count(b"4 2"), None);
    assert_eq!(parse_count(b"1_000"), None);
    assert_eq!(parse_count(usize::MAX.to_string().as_bytes()), Some(usize::MAX));
    assert_eq!(parse_count(b"340282366920938463463374607431768211456"), None);
}

#[test]
fn parse_billionths_reads_decimal_numbers() {
    assert_eq!(parse_billionths(b"0"), Some(0));
    assert_eq!(parse_billionths(b"0.05"), Some(50_000_000));
    assert_eq!(parse_billionths(b"3.141592653"), Some(3_141_592_653));
    assert_eq!(parse_billionths(b"-3.5"), Some(-3_500_000_000));
    assert_eq!(parse_billionths(b"+2"), Some(2_000_000_000));
    assert_eq!(parse_billionths(b".5"), Some(500_000_000));
    assert_eq!(parse_billionths(b"5."), Some(5_000_000_000));
    assert_eq!(parse_billionths(b"-0"), Some(0));
    assert_eq!(parse_billionths(b"000.100"), Some(100_000_000));
}

#[test]
fn parse_billionths_rejects_what_is_no_decimal_number() {
    assert_eq!(parse_billionths(b""), None);
    assert_eq!(parse_billionths(b"."), None);
    assert_eq!(parse_billionths(b"+"), None);
    assert_eq!(parse_billionths(b"-."), None);
    assert_eq!(parse_billionths(b"1.2.3"), None);
    assert_eq!(parse_billionths(b"--1"), None);
    assert_eq!(parse_billionths(b"1,5"), None);
    assert_eq!(parse_billionths(b" 1"), None);
    assert_eq!(parse_billionths(b"1 "), None);
    assert_eq!(parse_billionths(b"inf"), None);
    assert_eq!(parse_billionths(b"nan"), None);
    assert_eq!(parse_billionths(b"0x10"), None);
}

#[test]
fn parse_billionths_cuts_off_behind_the_ninth_place() {
    assert_eq!(parse_billionths(b"0.0000000001"), Some(0));
    assert_eq!(parse_billionths(b"0.0000000019"), Some(1));
    assert_eq!(parse_billionths(b"0.9999999999999999999999999"), Some(999_999_999));
    assert_eq!(parse_billionths(b"-0.0000000019"), Some(-1));
    assert_eq!(parse_billionths(b"3.14159265358979323846"), Some(3_141_592_653));
}

#[test]
fn parse_billionths_reads_an_exponent() {
    assert_eq!(parse_billionths(b"1e-3"), Some(1_000_000));
    assert_eq!(parse_billionths(b"1E-3"), Some(1_000_000));
    assert_eq!(parse_billionths(b"1E2"), Some(100_000_000_000));
    assert_eq!(parse_billionths(b"2.5e1"), Some(25_000_000_000));
    assert_eq!(parse_billionths(b"2.5e+1"), Some(25_000_000_000));
    assert_eq!(parse_billionths(b"5e-1"), Some(500_000_000));
    assert_eq!(parse_billionths(b"-1e-9"), Some(-1));
    assert_eq!(parse_billionths(b"1e-10"), Some(0));
    assert_eq!(parse_billionths(b"1e0"), Some(1_000_000_000));
    assert_eq!(parse_billionths(b"1e-0"), Some(1_000_000_000));
    assert_eq!(parse_billionths(b"1e0009"), Some(1_000_000_000_000_000_000));
    assert_eq!(parse_billionths(b".5e1"), Some(5_000_000_000));
    assert_eq!(parse_billionths(b"5.e-1"), Some(500_000_000));
    assert_eq!(parse_billionths(b"123456789012345678901234567890e-30"), Some(123_456_789));
    assert_eq!(parse_billionths(b"0.000000000000000000001e21"), Some(1_000_000_000));
    assert_eq!(parse_billionths(b"12345.678e-5"), Some(123_456_780));
}

#[test]
fn parse_billionths_rejects_an_exponent_that_is_no_number() {
    assert_eq!(parse_billionths(b"1e"), None);
    assert_eq!(parse_billionths(b"1e+"), None);
    assert_eq!(parse_billionths(b"1e-"), None);
    assert_eq!(parse_billionths(b"e5"), None);
    assert_eq!(parse_billionths(b".e5"), None);
    assert_eq!(parse_billionths(b"1e5.5"), None);
    assert_eq!(parse_billionths(b"1e 5"), None);
    assert_eq!(parse_billionths(b"1e5e5"), None);
    assert_eq!(parse_billionths(b"1ee5"), None);
    assert_eq!(parse_billionths(b"1e--5"), None);
}

#[test]
fn parse_billionths_with_an_exponent_beyond_all_bounds() {
    assert_eq!(parse_billionths(b"0e99999999999999999999999999999999999999"), Some(0));
    assert_eq!(parse_billionths(b"0.000e99999999999999999999999999999999999999"), Some(0));
    assert_eq!(parse_billionths(b"1e99999999999999999999999999999999999999"), None);
    assert_eq!(parse_billionths(b"0.001e99999999999999999999999999999999999999"), None);
    assert_eq!(parse_billionths(b"1e-99999999999999999999999999999999999999"), Some(0));
    assert_eq!(parse_billionths(b"987654321e-99999999999999999999999999999999999999"), Some(0));
    assert_eq!(parse_billionths(b"1e10"), None);
    assert_eq!(parse_billionths(b"9e9"), Some(9_000_000_000_000_000_000));
    assert_eq!(parse_billionths(b"1e9"), Some(1_000_000_000_000_000_000));
}

#[test]
fn parse_billionths_at_the_edge_of_the_range() {
    assert_eq!(parse_billionths(b"9223372036.854775807"), Some(i64::MAX));
    assert_eq!(parse_billionths(b"9223372036.8547758079"), Some(i64::MAX));
    assert_eq!(parse_billionths(b"9223372036.854775808"), None);
    assert_eq!(parse_billionths(b"-9223372036.854775807"), Some(-i64::MAX));
    assert_eq!(parse_billionths(b"9223372037"), None);
    assert_eq!(parse_billionths(b"99999999999999999999999999"), None);
    assert_eq!(parse_billionths(b"0000000000000000000000000000001"), Some(1_000_000_000));
    assert_eq!(parse_billionths(b"9223372036854775807e-9"), Some(i64::MAX));
    assert_eq!(parse_billionths(b"9223372036854775808e-9"), None);
}
