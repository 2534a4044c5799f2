use gg::decimal::{read_integer, read_position, write_decimal, write_position};
use gg::text::{
    append_chars, find_last, matches_at, same_chars, slice_chars, split_chars, text_lines,
    to_chars, to_text, trimmed, trimmed_end, trimmed_white,
};

fn chars(s: &str) -> Vec<char> {
    s.chars().collect()
}

fn lines(list: &[&str]) -> Vec<Vec<char>> {
    list.iter().map(|l| chars(l)).collect()
}

#[test]
fn texts_and_characters_convert_both_ways() {
    for s in ["", "abc", "wh/f/part-1.0", "h\u{e9}llo \u{4e16}\u{754c}"] {
        assert_eq!(to_chars(s), chars(s));
        assert_eq!(to_text(&chars(s)), s);
    }
    let mut v = chars("ab");
    append_chars(&mut v, &chars("cd"));
    assert_eq!(v, chars("abcd"));
    assert_eq!(slice_chars(&chars("abcdef"), 1, 4), chars("bcd"));
    assert_eq!(slice_chars(&chars("abc"), 3, 3), chars(""));
    assert!(same_chars(&chars("abc"), &chars("abc")));
    assert!(!same_chars(&chars("abc"), &chars("abd")));
    assert!(!same_chars(&chars("abc"), &chars("ab")));
}

#[test]
fn a_pattern_is_found_where_it_stands() {
    let s = chars("a/part-1/part-2");
    let p = chars("/part-");
    assert!(matches_at(&s, &p, 1));
    assert!(!matches_at(&s, &p, 0));
    assert!(!matches_at(&s, &p, 12));
    assert!(!matches_at(&s, &p, 100));
    assert!(matches_at(&s, &chars(""), 15));
    assert!(!matches_at(&s, &chars(""), 16));
    assert_eq!(find_last(&s, &p), Some(8));
    assert_eq!(find_last(&s, &chars("zz")), None);
    assert_eq!(find_last(&chars("aaa"), &chars("aa")), Some(1));
    assert_eq!(find_last(&chars("ab"), &chars("abc")), None);
    assert_eq!(find_last(&chars("abc"), &chars("")), Some(3));
}

#[test]
fn blanks_are_trimmed() {
    assert_eq!(trimmed_end(&chars("a b \t\r\n"), false), chars("a b"));
    assert_eq!(trimmed_end(&chars("a*\n"), false), chars("a*"));
    assert_eq!(trimmed_end(&chars("a*\n"), true), chars("a"));
    assert_eq!(trimmed_end(&chars(" \n"), false), chars(""));
    assert_eq!(trimmed(&chars("* a b \n"), true), chars("a b"));
    assert_eq!(trimmed(&chars("* a b \n"), false), chars("* a b"));
    assert_eq!(trimmed(&chars(""), true), chars(""));
    assert_eq!(trimmed_white(&chars(" \u{a0}\u{3000}a b\u{2028}\u{c}\n")), chars("a b"));
    assert_eq!(trimmed_white(&chars("\u{200b}a")), chars("\u{200b}a"));
}

#[test]
fn white_space_is_what_the_standard_library_trims() {
    for n in 0u32..0x3100 {
        if let Some(c) = char::from_u32(n) {
            let s = format!("{}x{}", c, c);
            assert_eq!(to_text(&trimmed_white(&chars(&s))), s.trim());
        }
    }
}

#[test]
fn a_text_is_cut_at_a_character() {
    assert_eq!(split_chars(&chars("a\nb\n\nc"), '\n'), lines(&["a", "b", "", "c"]));
    assert_eq!(split_chars(&chars(""), '\n'), lines(&[""]));
    assert_eq!(split_chars(&chars("\n"), '\n'), lines(&["", ""]));
    assert_eq!(split_chars(&chars("a/b"), '/'), lines(&["a", "b"]));
}

#[test]
fn lines_are_what_the_standard_library_cuts() {
    for s in ["", "a", "a\n", "a\nb", "a\r\nb\r\n", "a\r", "a\r\n", "\n", "\n\n", "\r\n", "a\n\nb\n", "a\rb\n", "\r"] {
        let expected: Vec<Vec<char>> = s.lines().map(|l| l.chars().collect()).collect();
        assert_eq!(text_lines(&chars(s)), expected, "lines of {:?}", s);
    }
}

#[test]
fn numbers_are_written_in_base_ten() {
    assert_eq!(write_decimal(0), chars("0"));
    assert_eq!(write_decimal(7), chars("7"));
    assert_eq!(write_decimal(10), chars("10"));
    assert_eq!(write_decimal(u64::MAX), chars("18446744073709551615"));
    assert_eq!(write_position(100), chars("1.0"));
    assert_eq!(write_position(5), chars("0.0"));
    assert_eq!(write_position(6), chars("0.1"));
    assert_eq!(write_position(15), chars("0.2"));
    assert_eq!(write_position(25), chars("0.2"));
    assert_eq!(write_position(35), chars("0.4"));
    assert_eq!(write_position(94), chars("0.9"));
    assert_eq!(write_position(95), chars("1.0"));
    assert_eq!(write_position(12345), chars("123.4"));
}

#[test]
fn numbers_are_read_in_base_ten() {
    assert_eq!(read_position(&chars("3.14159")), Some(314));
    assert_eq!(read_position(&chars("0")), Some(0));
    assert_eq!(read_position(&chars("x")), None);
    assert_eq!(read_integer(&chars("0")), Some(0));
    assert_eq!(read_integer(&chars("-0")), Some(0));
    assert_eq!(read_integer(&chars("0012")), Some(12));
    assert_eq!(read_integer(&chars("")), None);
    assert_eq!(read_integer(&chars("1.5")), None);
    assert_eq!(read_integer(&chars("--1")), None);
    for s in ["17", "-17", "+17", "9223372036854775807", "9223372036854775808", "-9223372036854775808", "-9223372036854775809", "1e3", " 1", "1 "] {
        assert_eq!(read_integer(&chars(s)), s.parse::<i64>().ok(), "reading {:?}", s);
    }
}
