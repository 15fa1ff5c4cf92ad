use codex_hosts::calendar::{date_of, format_unix_utc, padded_string};
use codex_hosts::json::{padding, signed_string, truth_text, write_text_list, Lines};
use codex_hosts::temporary_secrets::is_control;
use codex_hosts::text::{
    contains, decimal_string, ends_with, eq_ignore_case, find_first, find_last, hex_string,
    is_whitespace, join, starts_with, trim, trim_end, truncate_utf8,
};

#[test]
fn unix_timestamps_render_as_utc_dates() {
    assert_eq!(format_unix_utc(0), "1970-01-01 00:00 UTC");
    assert_eq!(format_unix_utc(1_758_500_000), "2025-09-22 00:13 UTC");
}

#[test]
fn leap_days_fall_where_the_calendar_has_them() {
    assert_eq!(format_unix_utc(951_782_400), "2000-02-29 00:00 UTC");
    assert_eq!(format_unix_utc(951_868_799), "2000-02-29 23:59 UTC");
    assert_eq!(format_unix_utc(951_868_800), "2000-03-01 00:00 UTC");
    assert_eq!(format_unix_utc(4_107_456_000), "2100-02-28 00:00 UTC");
    assert_eq!(format_unix_utc(4_107_542_400), "2100-03-01 00:00 UTC");
    assert_eq!(format_unix_utc(u64::MAX), "584554051223-11-09 07:00 UTC");
}

#[test]
fn every_day_has_its_own_date() {
    let mut last = date_of(0);
    assert_eq!((last.year, last.month, last.day), (1970, 1, 1));
    for day in 1..200_000 {
        let next = date_of(day);
        let follows = if next.day > 1 {
            (next.year, next.month, next.day - 1) == (last.year, last.month, last.day)
        } else if next.month > 1 {
            (next.year, next.month - 1) == (last.year, last.month) && last.day >= 28
        } else {
            next.year - 1 == last.year && (last.month, last.day) == (12, 31)
        };
        assert!(follows, "day {day}");
        last = next;
    }
    assert_eq!(padded_string(7, 2), "07");
    assert_eq!(padded_string(1234, 2), "1234");
}

#[test]
fn white_space_and_control_characters_are_those_of_unicode() {
    for code in 0..=0x10ffff_u32 {
        if let Some(c) = char::from_u32(code) {
            assert_eq!(is_whitespace(c), c.is_whitespace(), "{code:x}");
            assert_eq!(is_control(c), c.is_control(), "{code:x}");
        }
    }
}

#[test]
fn texts_are_cut_and_searched_by_characters() {
    assert_eq!(trim("\u{3000} a b\t\n"), "a b");
    assert_eq!(trim_end(" a \n"), " a");
    assert!(contains("日本語", "本") && !contains("日本", "語"));
    assert!(starts_with("abc", "ab") && ends_with("abc", "bc"));
    assert!(!starts_with("a", "ab") && !ends_with("c", "bc"));
    assert!(eq_ignore_case("Web-É", "wEB-É") && !eq_ignore_case("É", "é"));
    let chars: Vec<char> = "abab".chars().collect();
    let needle: Vec<char> = "ab".chars().collect();
    assert_eq!(find_first(&chars, &needle), Some(0));
    assert_eq!(find_last(&chars, &needle), Some(2));
    assert_eq!(decimal_string(u64::MAX), "18446744073709551615");
    assert_eq!(hex_string(0xbeef, 8), "0000beef");
    assert_eq!(join(&vec!["a".into(), "b".into()], "; "), "a; b");
}

#[test]
fn cutting_keeps_whole_characters() {
    for limit in 0..=12 {
        let mut text = "aé日𝄞x".to_owned();
        truncate_utf8(&mut text, limit);
        assert!(text.len() <= limit);
        assert!("aé日𝄞x".starts_with(&text));
    }
    let mut text = "aé日".to_owned();
    truncate_utf8(&mut text, 3);
    assert_eq!(text, "aé");
}

#[test]
fn nested_json_is_indented_as_serde_json_does() {
    let mut list = Lines::new(1);
    for name in ["a", "b"] {
        let mut item = Lines::new(2);
        item.put_text("name", name);
        item.put("none", "null");
        list.item(&item.into_object());
    }
    let mut lines = Lines::new(0);
    lines.put("empty", &Lines::new(1).into_list());
    lines.put("items", &list.into_list());
    lines.put_number("number", u64::MAX);
    lines.put("texts", &write_text_list(1, &vec!["x".into(), "\"".into()]));
    let written = lines.into_object();
    let parsed: serde_json::Value = serde_json::from_str(&written).unwrap();
    assert_eq!(parsed["items"][1]["name"], "b");
    assert_eq!(written, serde_json::to_string_pretty(&parsed).unwrap());
}

#[test]
fn json_is_laid_out_as_serde_json_does() {
    let awkward = "quote \" backslash \\ tab \t bell \u{7} del \u{7f} line \u{2028} é\u{0}\u{1f}\n\r\u{8}\u{c}/";
    let mut lines = Lines::new(0);
    lines.put_text("text", awkward);
    lines.put_optional("none", &None);
    lines.put_optional("some", &Some("x".into()));
    lines.put_number("number", 7);
    lines.put_truth("truth", false);
    let written = lines.into_object();
    let mut map = serde_json::Map::new();
    map.insert("text".into(), awkward.into());
    map.insert("some".into(), "x".into());
    map.insert("number".into(), 7.into());
    map.insert("truth".into(), false.into());
    let value = serde_json::Value::Object(map);
    let parsed: serde_json::Value = serde_json::from_str(&written).unwrap();
    assert_eq!(parsed, value);
    assert!(written.starts_with(&format!(
        "{{\n  \"text\": {},\n  \"some\": \"x\"",
        serde_json::to_string(awkward).unwrap()
    )));
    assert_eq!(Lines::new(0).into_object(), "{}");
    assert_eq!(Lines::new(0).into_list(), "[]");
    assert_eq!(padding(2), "    ");
    assert_eq!(signed_string(-5), "-5");
    assert_eq!(truth_text(true), "true");
}

#[test]
fn later_moments_sort_later() {
    let moments = [0, 59, 60, 86_399, 86_400, 951_868_799, 951_868_800, 253_402_300_799];
    for pair in moments.windows(2) {
        assert!(format_unix_utc(pair[0]) <= format_unix_utc(pair[1]));
    }
    assert!(format_unix_utc(253_402_300_799) > format_unix_utc(253_402_300_800));
}
