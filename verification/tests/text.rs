use wiki_crawler::crawl::text::{
    chars_of, contains, matches_at, parse_i32, parse_u32, push_decimal, starts_with, str_contains, tail_of,
};

fn chars(s: &str) -> Vec<char> {
    s.chars().collect()
}

#[test]
fn chars_of_gives_the_characters() {
    assert_eq!(chars_of("héllo"), vec!['h', 'é', 'l', 'l', 'o']);
    assert_eq!(chars_of(""), Vec::<char>::new());
}

#[test]
fn substring_search_agrees_with_std() {
    let hays = ["", "a", "ab", "abc", "aab", "abab", "wikipedia.org/wiki", "ħéllo wörld"];
    let needles = ["", "a", "b", "ab", "ba", "abc", "aab", "wiki", "org/", "wö", "xyz"];
    for hay in hays {
        for needle in needles {
            assert_eq!(str_contains(hay, needle), hay.contains(needle), "{:?} in {:?}", needle, hay);
            assert_eq!(contains(&chars(hay), &chars(needle)), hay.contains(needle));
            assert_eq!(starts_with(&chars(hay), &chars(needle)), hay.starts_with(needle));
        }
    }
}

#[test]
fn matches_at_looks_at_one_position() {
    let hay = chars("abcabc");
    assert!(matches_at(&hay, &chars("bc"), 1));
    assert!(!matches_at(&hay, &chars("bc"), 2));
    assert!(matches_at(&hay, &chars("bc"), 4));
    assert!(matches_at(&hay, &chars(""), 6));
}

#[test]
fn tail_of_skips_the_beginning() {
    assert_eq!(tail_of(&chars("crawl_12"), 6), chars("12"));
    assert_eq!(tail_of(&chars("abc"), 3), chars(""));
    assert_eq!(tail_of(&chars("abc"), 0), chars("abc"));
}

#[test]
fn unsigned_numbers_read_as_std_reads_them() {
    for text in [
        "0", "7", "42", "007", "+5", "+0", "4294967295", "4294967296", "99999999999999999999", "", "+", "-",
        "-1", "-0", "+-1", "++1", "1 ", " 1", "1a", "a1", "1_000", "١٢",
    ] {
        assert_eq!(parse_u32(text), text.parse::<u32>().ok(), "text {:?}", text);
    }
}

#[test]
fn signed_numbers_read_as_std_reads_them() {
    for text in [
        "0", "-0", "+0", "40", "-40", "+40", "2147483647", "2147483648", "-2147483648", "-2147483649", "", "+",
        "-", "--1", "-+1", "+-1", "1-", "12.5", "0x10", "99999999999999999999", "-99999999999999999999",
    ] {
        assert_eq!(parse_i32(text), text.parse::<i32>().ok(), "text {:?}", text);
    }
}

#[test]
fn numbers_at_their_exact_values() {
    assert_eq!(parse_u32("4294967295"), Some(u32::MAX));
    assert_eq!(parse_u32("4294967296"), None);
    assert_eq!(parse_u32("+0012"), Some(12));
    assert_eq!(parse_u32("-0"), None);
    assert_eq!(parse_i32("-2147483648"), Some(i32::MIN));
    assert_eq!(parse_i32("2147483647"), Some(i32::MAX));
    assert_eq!(parse_i32("-0"), Some(0));
    assert_eq!(parse_i32("-2147483649"), None);
}

#[test]
fn decimal_writing_is_the_shortest() {
    for n in [0u64, 1, 9, 10, 11, 99, 100, 101, 500, 4294967295, 4294967296, u64::MAX] {
        let mut out = String::from("n=");
        push_decimal(&mut out, n);
        assert_eq!(out, format!("n={}", n));
    }
}
