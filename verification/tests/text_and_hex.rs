use permute_mmo_rs_ui::hex::{parse_hex_u64, parse_prefixed_hex};
use permute_mmo_rs_ui::text::{ends_with_text, load_string_list, same_text, space_bars, trim_whitespace};

#[test]
fn load_string_list_strips_line_endings() {
    let list = load_string_list("Hardy\r\nLonely\nBrave\r\n");
    assert_eq!(list, vec!["Hardy", "Lonely", "Brave", ""]);
}

#[test]
fn load_string_list_empty_text_is_one_empty_entry() {
    assert_eq!(load_string_list(""), vec![""]);
}

#[test]
fn load_string_list_keeps_inner_carriage_returns() {
    assert_eq!(load_string_list("a\rb\r\r\nc"), vec!["a\rb\r", "c"]);
}

#[test]
fn load_string_list_entry_count_is_line_feeds_plus_one() {
    let text = "Egg\nBulbasaur\nIvysaur\nVenusaur";
    let list = load_string_list(text);
    assert_eq!(list.len(), text.matches('\n').count() + 1);
    assert_eq!(list[3], "Venusaur");
}

#[test]
fn load_string_list_handles_non_ascii() {
    assert_eq!(load_string_list("Flabébé\r\nNidoran♀"), vec!["Flabébé", "Nidoran♀"]);
}

#[test]
fn parse_hex_accepts_both_cases() {
    assert_eq!(parse_hex_u64("ff"), Some(255));
    assert_eq!(parse_hex_u64("FF"), Some(255));
    assert_eq!(parse_hex_u64("aBc"), Some(0xabc));
}

#[test]
fn parse_hex_accepts_one_plus_sign() {
    assert_eq!(parse_hex_u64("+10"), Some(16));
    assert_eq!(parse_hex_u64("++10"), None);
    assert_eq!(parse_hex_u64("+"), None);
}

#[test]
fn parse_hex_rejects_what_from_str_radix_rejects() {
    for s in ["", "-1", "0x10", " 1", "1 ", "g", "12z"] {
        assert_eq!(parse_hex_u64(s), None, "{s}");
        assert!(u64::from_str_radix(s, 16).is_err(), "{s}");
    }
}

#[test]
fn parse_hex_matches_from_str_radix() {
    for s in ["0", "1", "+7f", "DEADBEEF", "ffffffffffffffff", "0000000000000000000001", "10000000000000000"] {
        assert_eq!(parse_hex_u64(s), u64::from_str_radix(s, 16).ok(), "{s}");
    }
}

#[test]
fn parse_hex_limits() {
    assert_eq!(parse_hex_u64("FFFFFFFFFFFFFFFF"), Some(u64::MAX));
    assert_eq!(parse_hex_u64("10000000000000000"), None);
    assert_eq!(parse_hex_u64("1000000000000000G"), None);
}

#[test]
fn parse_prefixed_hex_reads_fields() {
    assert_eq!(parse_prefixed_hex("0x1F"), 31);
    assert_eq!(parse_prefixed_hex("1F"), 31);
    assert_eq!(parse_prefixed_hex("0xCBF29CE484222645"), 0xCBF29CE484222645);
    assert_eq!(parse_prefixed_hex("0x"), 0);
    assert_eq!(parse_prefixed_hex("0X1F"), 0);
    assert_eq!(parse_prefixed_hex("zz"), 0);
    assert_eq!(parse_prefixed_hex(""), 0);
    assert_eq!(parse_prefixed_hex("0"), 0);
    assert_eq!(parse_prefixed_hex("01"), 1);
}

#[test]
fn trim_removes_unicode_white_space() {
    assert_eq!(trim_whitespace("  [Wave 2] \t"), "[Wave 2]");
    assert_eq!(trim_whitespace("\u{3000}x\u{a0}"), "x");
    assert_eq!(trim_whitespace("   "), "");
    assert_eq!(trim_whitespace(""), "");
    assert_eq!(trim_whitespace("a b"), "a b");
}

#[test]
fn trim_agrees_with_str_trim() {
    for s in [" \u{85}a\u{2028}", "\u{200b}x", "\n\r\tq w\u{2000}", "\u{feff}z "] {
        assert_eq!(trim_whitespace(s), s.trim(), "{s:?}");
    }
}

#[test]
fn space_bars_puts_spaces_round_bars() {
    assert_eq!(space_bars("A1|B2|C3"), "A1 | B2 | C3");
    assert_eq!(space_bars("|"), " | ");
    assert_eq!(space_bars("none"), "none");
}

#[test]
fn text_comparisons() {
    assert!(same_text("json", "json"));
    assert!(!same_text("json", "JSON"));
    assert!(!same_text("js", "json"));
    assert!(ends_with_text("spawner.json", ".json"));
    assert!(!ends_with_text("json", ".json"));
    assert!(ends_with_text("x", ""));
}

#[test]
fn trim_twice_is_trim_once() {
    for s in ["  a  ", "\u{2003}b c\t", "", " "] {
        let once = trim_whitespace(s);
        assert_eq!(trim_whitespace(&once), once);
    }
}
