use proxy_bridge::text::{
    chars_of, cut, decimal_chars, parse_number, pieces_between, same_ignoring_case, space,
    start_after_last, text_of, trimmed, words_of,
};

fn texts(pieces: &[&[char]]) -> Vec<String> {
    pieces.iter().map(|p| text_of(p)).collect()
}

#[test]
fn white_space_is_that_of_unicode() {
    for n in 0..=0x10ffffu32 {
        if let Some(c) = char::from_u32(n) {
            assert_eq!(space(c), c.is_whitespace(), "{n:x}");
        }
    }
}

#[test]
fn trimming_agrees_with_the_standard_library() {
    for s in ["", " ", "a", " a", "a ", "\t a b\u{a0}\n", "\u{3000}x\u{2003}", "ab"] {
        let chars = chars_of(s);
        assert_eq!(text_of(trimmed(&chars)), s.trim());
    }
}

#[test]
fn splitting_agrees_with_the_standard_library() {
    for s in ["", ":", "a", "a:b", ":a:", "a::b", "über:ß:", "a;b,c;,d"] {
        let chars = chars_of(s);
        let want: Vec<String> = s.split(':').map(String::from).collect();
        assert_eq!(texts(&pieces_between(&chars, ':', ':')), want);
        let want: Vec<String> = s.split([',', ';']).map(String::from).collect();
        assert_eq!(texts(&pieces_between(&chars, ',', ';')), want);
        let want: Vec<String> = s.split_whitespace().map(String::from).collect();
        assert_eq!(texts(&words_of(&chars)), want);
        let got = cut(&chars, ':').map(|(a, b)| (text_of(a), text_of(b)));
        let want = s.split_once(':').map(|(a, b)| (a.to_string(), b.to_string()));
        assert_eq!(got, want);
    }
    let chars = chars_of("  one\ttwo \n three");
    assert_eq!(texts(&words_of(&chars)), ["one", "two", "three"]);
}

#[test]
fn numbers_are_read_as_the_standard_library_reads_them() {
    for s in [
        "", "+", "-", "0", "00", "+7", "++7", "-1", "255", "256", "65535", "65536", "0065535",
        "1a", "a1", "ff", "FF", "+fF", " 1", "1 ", "１", "99999999999999999999999999",
        "4294967295", "4294967296", "18446744073709551615", "18446744073709551616",
    ] {
        let chars = chars_of(s);
        assert_eq!(parse_number(&chars, 10, 255), s.parse::<u8>().ok().map(u64::from), "{s}");
        assert_eq!(parse_number(&chars, 10, 65535), s.parse::<u16>().ok().map(u64::from), "{s}");
        assert_eq!(
            parse_number(&chars, 10, u32::MAX as u64),
            s.parse::<u32>().ok().map(u64::from),
            "{s}"
        );
        assert_eq!(parse_number(&chars, 10, u64::MAX), s.parse::<u64>().ok(), "{s}");
        assert_eq!(
            parse_number(&chars, 16, 65535),
            u16::from_str_radix(s, 16).ok().map(u64::from),
            "{s}"
        );
    }
}

#[test]
fn decimal_texts_are_read_back() {
    for n in [0u64, 1, 9, 10, 99, 100, 65535, u32::MAX as u64, u64::MAX] {
        let chars = decimal_chars(n);
        assert_eq!(text_of(&chars), n.to_string());
        assert_eq!(parse_number(&chars, 10, u64::MAX), Some(n));
    }
}

#[test]
fn only_ascii_letters_are_folded() {
    assert!(same_ignoring_case(&chars_of("CuRl"), &chars_of("cUrL")));
    assert!(!same_ignoring_case(&chars_of("Ü"), &chars_of("ü")));
    assert!(!same_ignoring_case(&chars_of("@"), &chars_of("`")));
    assert!(!same_ignoring_case(&chars_of("["), &chars_of("{")));
}

#[test]
fn the_part_behind_the_last_separator() {
    for s in ["", "/", "a", "/usr/bin/curl", "/usr/bin/", "a/b"] {
        let chars = chars_of(s);
        let from = start_after_last(&chars, '/');
        assert_eq!(text_of(&chars[from..]), s.rsplit('/').next().unwrap());
    }
}
