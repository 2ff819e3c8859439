use carrot_utils::parse::{
    byte_to_octal, parse_bool, parse_i32, parse_i64, parse_integer, parse_u32, parse_u32_octal,
    parse_u64, parse_usize, u64_in_radix, u64_to_decimal, IntErrorKind,
};
use carrot_utils::text::{
    is_whitespace, push_str, split_char, split_whitespace, str_eq, trim,
};

#[test]
fn str_eq_compares_whole_strings() {
    assert!(str_eq("abc", "abc"));
    assert!(!str_eq("abc", "abd"));
    assert!(!str_eq("abc", "ab"));
    assert!(str_eq("", ""));
    assert!(str_eq("żółw", "żółw"));
}

#[test]
fn push_str_appends() {
    let mut s = String::from("ab");
    push_str(&mut s, "cď");
    assert_eq!(s, "abcď");
}

#[test]
fn whitespace_characters() {
    assert!(is_whitespace(' '));
    assert!(is_whitespace('\t'));
    assert!(is_whitespace('\n'));
    assert!(is_whitespace('\u{3000}'));
    assert!(!is_whitespace('a'));
    assert!(!is_whitespace('_'));
}

#[test]
fn split_whitespace_gives_words() {
    assert_eq!(split_whitespace("  af file\tthen  ad dir\n"), vec!["af", "file", "then", "ad", "dir"]);
    assert_eq!(split_whitespace("   "), Vec::<String>::new());
    assert_eq!(split_whitespace(""), Vec::<String>::new());
}

#[test]
fn split_char_keeps_empty_pieces() {
    assert_eq!(split_char("1000,100", ','), vec!["1000", "100"]);
    assert_eq!(split_char("a,,b,", ','), vec!["a", "", "b", ""]);
    assert_eq!(split_char("", ','), vec![""]);
    assert_eq!(split_char("abc", ','), vec!["abc"]);
}

#[test]
fn trim_removes_outer_whitespace() {
    assert_eq!(trim("  yes \n"), "yes");
    assert_eq!(trim("a b"), "a b");
    assert_eq!(trim(" \t "), "");
}

#[test]
fn parse_unsigned_numbers() {
    assert_eq!(parse_u32("1000"), Ok(1000));
    assert_eq!(parse_u32("+7"), Ok(7));
    assert_eq!(parse_u32("4294967295"), Ok(u32::MAX));
    assert_eq!(parse_u64("18446744073709551615"), Ok(u64::MAX));
    assert_eq!(parse_usize("0"), Ok(0));
}

#[test]
fn parse_errors_have_kinds() {
    assert_eq!(parse_u32(""), Err(IntErrorKind::Empty));
    assert_eq!(parse_u32("12a"), Err(IntErrorKind::InvalidDigit));
    assert_eq!(parse_u32("-1"), Err(IntErrorKind::InvalidDigit));
    assert_eq!(parse_u32("+"), Err(IntErrorKind::InvalidDigit));
    assert_eq!(parse_u32("4294967296"), Err(IntErrorKind::PosOverflow));
    assert_eq!(parse_i32("-2147483649"), Err(IntErrorKind::NegOverflow));
    assert_eq!(parse_u64("18446744073709551616"), Err(IntErrorKind::PosOverflow));
}

#[test]
fn parse_signed_numbers() {
    assert_eq!(parse_i32("-2147483648"), Ok(i32::MIN));
    assert_eq!(parse_i32("42"), Ok(42));
    assert_eq!(parse_i64("-9223372036854775808"), Ok(i64::MIN));
    assert_eq!(parse_i64("-"), Err(IntErrorKind::InvalidDigit));
}

#[test]
fn parse_matches_std_on_samples() {
    for s in ["0", "12", "-12", "+3", "", "x", "99999999999", "-99999999999", " 1"] {
        let ours = parse_i32(s);
        let theirs = s.parse::<i32>();
        assert_eq!(ours.is_ok(), theirs.is_ok(), "{s}");
        if let Ok(v) = theirs {
            assert_eq!(ours, Ok(v));
        }
    }
}

#[test]
fn parse_integer_in_base_eight() {
    assert_eq!(parse_integer("755", 0, u32::MAX as i128, 8), Ok(493));
    assert_eq!(parse_u32_octal("0755"), Ok(493));
    assert_eq!(parse_u32_octal("8"), Err(IntErrorKind::InvalidDigit));
}

#[test]
fn parse_bool_is_exact() {
    assert_eq!(parse_bool("true"), Some(true));
    assert_eq!(parse_bool("false"), Some(false));
    assert_eq!(parse_bool("True"), None);
    assert_eq!(parse_bool(""), None);
}

#[test]
fn numbers_written_in_decimal() {
    assert_eq!(u64_to_decimal(0), "0");
    assert_eq!(u64_to_decimal(1000), "1000");
    assert_eq!(u64_to_decimal(u64::MAX), u64::MAX.to_string());
}

#[test]
fn numbers_written_in_other_bases() {
    assert_eq!(u64_in_radix(493, 8), "755");
    assert_eq!(u64_in_radix(5, 2), "101");
    assert_eq!(byte_to_octal(10), "12");
    assert_eq!(byte_to_octal(255), format!("{:o}", 255u8));
    assert_eq!(byte_to_octal(0), "0");
}

#[test]
fn decimal_reads_back() {
    for n in [0u64, 7, 10, 1000, 65535, u32::MAX as u64, u64::MAX] {
        assert_eq!(parse_u64(&u64_to_decimal(n)), Ok(n));
    }
}
