use nosubvod::civil::{
    days_from_civil, elapsed_millis_since, parse_iso8601_to_epoch, DAY_MILLIS,
    MAX_AGE_MILLIS,
};
use nosubvod::encoding::{
    create_simple_hash, decimal_string, normalize_language, urlencoding_simple,
};
use nosubvod::text::{
    chars_of, contains_in, ends_with_exec, find_char, find_in, is_white_space_exec,
    matches_at_exec, replace_all_exec, rfind_char_exec, same_text, slice_of, string_of,
    trim_end_char_exec, trim_start_char_exec, trim_ws_exec,
};

fn chars(s: &str) -> Vec<char> {
    s.chars().collect()
}

fn text(v: &Vec<char>) -> String {
    v.iter().collect()
}

#[test]
fn chars_and_strings_convert_both_ways() {
    for s in ["", "a", "h\u{e9}llo \u{1F600}", "line\nbreak"] {
        assert_eq!(chars_of(s), chars(s));
        assert_eq!(string_of(&chars(s)), s);
    }
}

#[test]
fn find_gives_first_occurrence() {
    let s = chars("abcabc");
    assert_eq!(find_in(&s, &chars("bc"), 0), Some(1));
    assert_eq!(find_in(&s, &chars("bc"), 2), Some(4));
    assert_eq!(find_in(&s, &chars("bc"), 5), None);
    assert_eq!(find_in(&s, &chars("x"), 0), None);
    assert_eq!(find_in(&s, &chars(""), 0), Some(0));
    assert_eq!(find_in(&s, &chars(""), 6), Some(6));
    assert_eq!(find_in(&s, &chars(""), 7), None);
    assert_eq!(find_in(&s, &chars("abcabcd"), 0), None);
    assert_eq!(find_in(&chars(""), &chars(""), 0), Some(0));
}

#[test]
fn find_agrees_with_std() {
    let hay = ["", "a", "aaa", "abcabc", "xxURI=\"y\"", "-unmuted-unmuted"];
    let needles = ["", "a", "aa", "bc", "URI=\"", "-unmuted", "zz"];
    for h in hay {
        for n in needles {
            assert_eq!(find_in(&chars(h), &chars(n), 0), h.find(n), "{h:?} {n:?}");
            assert_eq!(contains_in(&chars(h), &chars(n)), h.contains(n));
            assert_eq!(ends_with_exec(&chars(h), &chars(n)), h.ends_with(n));
            assert_eq!(matches_at_exec(&chars(h), &chars(n), 0), h.starts_with(n));
        }
    }
}

#[test]
fn char_search_from_both_ends() {
    let s = chars("a/b/c");
    assert_eq!(find_char(&s, '/', 0), 1);
    assert_eq!(find_char(&s, '/', 2), 3);
    assert_eq!(find_char(&s, '/', 4), 5);
    assert_eq!(find_char(&s, 'z', 0), 5);
    assert_eq!(rfind_char_exec(&s, '/'), Some(3));
    assert_eq!(rfind_char_exec(&s, 'z'), None);
    assert_eq!(rfind_char_exec(&chars(""), '/'), None);
}

#[test]
fn slices_and_equality() {
    let s = chars("hello");
    assert_eq!(text(&slice_of(&s, 1, 3)), "el");
    assert_eq!(text(&slice_of(&s, 0, 0)), "");
    assert!(same_text(&chars("ab"), &chars("ab")));
    assert!(!same_text(&chars("ab"), &chars("abc")));
    assert!(!same_text(&chars("ab"), &chars("ac")));
}

#[test]
fn trims_agree_with_std() {
    let samples = [
        "",
        " ",
        "  a b  ",
        "\t\r\n x \u{a0}",
        "\u{2003}x\u{3000}",
        "\u{1680}\u{2028}\u{2029}\u{202f}\u{205f}x\u{85}",
        "\u{200b}x\u{200b}",
        "\u{feff}x",
        "x\r\r",
        "//a//",
        "ZZ",
        "aZZ",
    ];
    for s in samples {
        assert_eq!(text(&trim_ws_exec(&chars(s))), s.trim(), "{s:?}");
        assert_eq!(text(&trim_end_char_exec(&chars(s), '\r')), s.trim_end_matches('\r'));
        assert_eq!(text(&trim_end_char_exec(&chars(s), 'Z')), s.trim_end_matches('Z'));
        assert_eq!(text(&trim_start_char_exec(&chars(s), '/')), s.trim_start_matches('/'));
    }
}

#[test]
fn white_space_agrees_with_std_on_every_char() {
    let mut n: u32 = 0;
    while n <= 0x10FFFF {
        if let Some(c) = char::from_u32(n) {
            assert_eq!(is_white_space_exec(c), c.is_whitespace(), "{n:#x}");
        }
        n += 1;
    }
}

#[test]
fn replace_agrees_with_std() {
    let cases = [
        ("a-unmuted-b-unmuted", "-unmuted", "-muted"),
        ("aaaa", "aa", "b"),
        ("aaa", "aa", "b"),
        ("abc", "x", "y"),
        ("", "x", "y"),
        ("xx", "x", ""),
        ("URI=\"a\",URI=\"b\"", "URI=\"", "URI=\"https://h/"),
    ];
    for (s, from, to) in cases {
        assert_eq!(
            text(&replace_all_exec(&chars(s), &chars(from), &chars(to))),
            s.replace(from, to)
        );
    }
}

#[test]
fn decimal_strings() {
    assert_eq!(decimal_string(0), "0");
    assert_eq!(decimal_string(7), "7");
    assert_eq!(decimal_string(10), "10");
    assert_eq!(decimal_string(8_534_030), "8534030");
    assert_eq!(decimal_string(u64::MAX), "18446744073709551615");
}

#[test]
fn percent_encoding_keeps_unreserved_only() {
    assert_eq!(urlencoding_simple(""), "");
    assert_eq!(urlencoding_simple("AZaz09-_.~"), "AZaz09-_.~");
    assert_eq!(urlencoding_simple("a b&c/d"), "a%20b%26c%2Fd");
    assert_eq!(urlencoding_simple("\u{e9}"), "%C3%A9");
    assert_eq!(urlencoding_simple("\u{1F600}"), "%F0%9F%98%80");
    assert_eq!(urlencoding_simple("%+=?\n\0"), "%25%2B%3D%3F%0A%00");
    assert_eq!(urlencoding_simple("\u{7f}"), "%7F");
}

fn reference_hash(value: &str) -> String {
    let mut hash: i32 = 0;
    for (i, ch) in value.chars().enumerate() {
        if i >= 10000 {
            break;
        }
        hash = hash.wrapping_shl(5).wrapping_sub(hash).wrapping_add(ch as i32);
    }
    hash.unsigned_abs().to_string()
}

#[test]
fn simple_hash_values() {
    assert_eq!(create_simple_hash(""), "0");
    assert_eq!(create_simple_hash("a"), "97");
    assert_eq!(create_simple_hash("abc"), "96354");
    assert_eq!(create_simple_hash("Just Chatting"), reference_hash("Just Chatting"));
    for s in [
        "hello world, this is a longer text that overflows",
        "\u{1F600}\u{1F600}\u{1F600}\u{1F600}\u{1F600}\u{1F600}\u{1F600}",
        "zzzzzzzzzzzzzzzzzzzzzzzzzzzzzzzzzzzzzzzz",
        "a|b|c",
    ] {
        assert_eq!(create_simple_hash(s), reference_hash(s));
    }
}

#[test]
fn simple_hash_reads_ten_thousand_chars() {
    let base = "x".repeat(10000);
    let longer = format!("{base}yyyy");
    assert_eq!(create_simple_hash(&base), create_simple_hash(&longer));
    assert_eq!(create_simple_hash(&base), reference_hash(&longer));
    let shorter = "x".repeat(9999);
    assert_ne!(create_simple_hash(&base), create_simple_hash(&shorter));
}

#[test]
fn languages_are_normalized() {
    assert_eq!(normalize_language(None), "");
    assert_eq!(normalize_language(Some("")), "");
    assert_eq!(normalize_language(Some(" FR ")), "fr");
    assert_eq!(normalize_language(Some("En")), "en");
    assert_eq!(normalize_language(Some("\tPT-BR\n")), "pt-br");
    assert_eq!(normalize_language(Some("\u{c9}")), "\u{e9}");
}

#[test]
fn civil_day_numbers() {
    assert_eq!(days_from_civil(1970, 1, 1), 0);
    assert_eq!(days_from_civil(1970, 1, 2), 1);
    assert_eq!(days_from_civil(1969, 12, 31), -1);
    assert_eq!(days_from_civil(2000, 3, 1), 11017);
    assert_eq!(days_from_civil(2000, 2, 29), 11016);
    assert_eq!(days_from_civil(2024, 1, 1), 19723);
    assert_eq!(days_from_civil(2024, 1, 10), 19732);
    assert_eq!(days_from_civil(1600, 1, 1), -135140);
    assert_eq!(days_from_civil(0, 1, 1), -719528);
    assert_eq!(days_from_civil(-1, 12, 31), -719529);
    assert_eq!(days_from_civil(2024, 0, 0), days_from_civil(2023, 11, 30));
}

#[test]
fn civil_day_numbers_of_odd_months() {
    // month 13 is counted from March of the year given: ten months on
    assert_eq!(days_from_civil(2024, 13, 1), days_from_civil(2024, 3, 1) + 306);
    assert_eq!(days_from_civil(2024, -20, 1), reference_days(2024, -20, 1));
    assert_eq!(days_from_civil(-400, 2, 29), reference_days(-400, 2, 29));
}

fn reference_days(y: i64, m: i64, d: i64) -> i64 {
    let y = if m <= 2 { y - 1 } else { y };
    let era = y.div_euclid(400);
    let yoe = y - era * 400;
    let doy = (153 * (if m > 2 { m - 3 } else { m + 9 }) + 2) / 5 + d - 1;
    let doe = yoe * 365 + yoe / 4 - yoe / 100 + doy;
    era * 146097 + doe - 719468
}

#[test]
fn timestamps_are_read() {
    assert_eq!(parse_iso8601_to_epoch("1970-01-01T00:00:00Z"), Ok(0));
    assert_eq!(parse_iso8601_to_epoch("2024-01-15T10:30:00Z"), Ok(1705314600));
    assert_eq!(parse_iso8601_to_epoch("2024-01-15T10:30:00.123Z"), Ok(1705314600));
    assert_eq!(parse_iso8601_to_epoch("2024-01-15T10:30:00"), Ok(1705314600));
    assert_eq!(parse_iso8601_to_epoch("2024-01-15T10:30:00ZZZ"), Ok(1705314600));
    assert_eq!(parse_iso8601_to_epoch("2024-1-15T1:2:3Z"), Ok(1705280523));
    assert_eq!(parse_iso8601_to_epoch("+2024-01-15T10:30:00Z"), Ok(1705314600));
}

#[test]
fn malformed_timestamps_are_refused() {
    for s in [
        "",
        "2024-01-15",
        "2024-01-15 10:30:00Z",
        "2024-01T10:30:00Z",
        "2024-01-15T10:30Z",
        "2024-01-15-01T10:30:00Z",
        "2024-01-15T10:30:00:00Z",
        "2024-xx-15T10:30:00Z",
        "2024-01-15T10:30:0xZ",
        "T",
        "99999999999-01-01T00:00:00Z",
    ] {
        assert_eq!(parse_iso8601_to_epoch(s), Err(()), "{s:?}");
    }
}

#[test]
fn dropped_pieces_do_not_count() {
    // a leading `-` leaves an empty first piece, which is passed over
    assert_eq!(parse_iso8601_to_epoch("-2024-01-15T10:30:00Z"), Ok(1705314600));
    assert_eq!(parse_iso8601_to_epoch("2024-01-15T10:30:00.5.5Z"), Ok(1705314600));
}

#[test]
fn nine_days_between_first_and_tenth_of_january() {
    let now = parse_iso8601_to_epoch("2024-01-10T00:00:00Z").unwrap() as u64 * 1000;
    let age = elapsed_millis_since("2024-01-01T00:00:00Z", now);
    assert_eq!(age, 9 * DAY_MILLIS);
    assert_eq!(age / DAY_MILLIS, 9);
    assert_eq!(age as f64 / DAY_MILLIS as f64, 9.0);
}

#[test]
fn ages_are_clamped() {
    let now = 1_705_314_600_000u64;
    assert_eq!(elapsed_millis_since("2024-01-15T10:30:00Z", now), 0);
    assert_eq!(elapsed_millis_since("2024-01-15T10:29:59Z", now), 1000);
    assert_eq!(elapsed_millis_since("2024-01-15T10:30:00Z", now + 1), 1);
    assert_eq!(elapsed_millis_since("2025-01-15T10:30:00Z", now), 0);
    assert_eq!(elapsed_millis_since("2020-01-15T10:30:00Z", now), MAX_AGE_MILLIS);
    assert_eq!(elapsed_millis_since("garbage", now), 0);
    assert_eq!(elapsed_millis_since("", now), 0);
    assert_eq!(MAX_AGE_MILLIS, 60 * DAY_MILLIS);
}
