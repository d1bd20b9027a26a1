use strava_client::text::{chars_of, decimal_string, i32_string, parse_u32_range, split_ranges, str_eq, trim_str};
use strava_client::json::to_json_string;
use strava_client::cantine::{filter_digits, trim_whitespace};

#[test]
fn trim_removes_unicode_white_space_at_both_ends() {
    assert_eq!(trim_str("  a b \t\n"), "a b");
    assert_eq!(trim_str("\u{a0}\u{3000}x\u{2009}"), "x");
    assert_eq!(trim_str("   "), "");
    assert_eq!(trim_str(""), "");
    assert_eq!(trim_whitespace(" Jídelna "), "Jídelna");
}

#[test]
fn trim_again_changes_nothing() {
    for s in [" a ", "\tb\n", "c", "  ", "d  e"] {
        let once = trim_str(s);
        assert_eq!(trim_str(&once), once);
    }
}

#[test]
fn split_gives_the_pieces_between_separators() {
    let v = chars_of("a.bc..d");
    let pieces: Vec<String> = split_ranges(&v, '.').iter().map(|(a, b)| v[*a..*b].iter().collect()).collect();
    assert_eq!(pieces, vec!["a", "bc", "", "d"]);
    let e = chars_of("");
    assert_eq!(split_ranges(&e, '.'), vec![(0, 0)]);
}

#[test]
fn parse_u32_follows_str_parse() {
    for s in ["0", "42", "+7", "007", "4294967295", "4294967296", "", "+", "-1", "1a", " 1", "99999999999999999999"] {
        let v = chars_of(s);
        assert_eq!(parse_u32_range(&v, 0, v.len()), s.parse::<u32>().ok(), "{}", s);
    }
}

#[test]
fn decimals_are_written_as_format_writes_them() {
    for n in [0u32, 9, 10, 255, 4294967295] {
        assert_eq!(decimal_string(n), n.to_string());
    }
    for n in [0i32, -1, -2147483648, 2147483647, 2024] {
        assert_eq!(i32_string(n), n.to_string());
    }
}

#[test]
fn str_eq_compares_characters() {
    assert!(str_eq("čaj", "čaj"));
    assert!(!str_eq("čaj", "caj"));
    assert!(!str_eq("a", "ab"));
}

#[test]
fn filter_digits_drops_decimal_digits() {
    assert_eq!(filter_digits("1a Lepek 2"), "a Lepek ");
    assert_eq!(filter_digits("123"), "");
}

#[test]
fn json_strings_are_escaped_as_serde_json_escapes_them() {
    for s in ["plain", "quote \" and \\ backslash", "line\nbreak\ttab\r", "\u{1}\u{1f}\u{8}\u{c}", "čeština"] {
        assert_eq!(to_json_string(s), serde_json::to_string(s).unwrap());
    }
}

