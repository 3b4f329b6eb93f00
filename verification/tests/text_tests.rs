use raspi_observer::text::{
    chars_of, decimal_chars, parse_u16, parse_u64, remove_char_chars, second_field_chars,
    split_lines, split_words, string_from_chars, strip_prefix_chars, strip_suffix_chars, trim_str,
};

fn v(s: &str) -> Vec<char> {
    s.chars().collect()
}

fn strings(vs: Vec<Vec<char>>) -> Vec<String> {
    vs.into_iter().map(|w| w.into_iter().collect()).collect()
}

#[test]
fn words_split_on_unicode_white_space() {
    let text = "  eth0:  12 \t 34\u{a0}56\n7  ";
    assert_eq!(strings(split_words(&v(text))), vec!["eth0:", "12", "34", "56", "7"]);
    assert_eq!(
        strings(split_words(&v(text))),
        text.split_whitespace().map(|s| s.to_string()).collect::<Vec<_>>()
    );
    assert!(split_words(&v("   ")).is_empty());
    assert!(split_words(&v("")).is_empty());
}

#[test]
fn lines_match_std() {
    for text in ["", "a", "a\n", "a\nb", "a\r\nb\r\n", "\n", "a\n\nb", "x\r", "a\n\r"] {
        assert_eq!(
            strings(split_lines(&v(text))),
            text.lines().map(|s| s.to_string()).collect::<Vec<_>>(),
            "text {:?}",
            text
        );
    }
}

#[test]
fn trim_removes_surrounding_white_space() {
    assert_eq!(trim_str("  47234\n"), "47234");
    assert_eq!(trim_str("\u{3000}a b\t"), "a b");
    assert_eq!(trim_str("   "), "");
    assert_eq!(trim_str("x"), "x");
}

#[test]
fn prefixes_and_suffixes() {
    let s = v("temp=48.3'C");
    let rest = strip_prefix_chars(&s, &v("temp=")).unwrap();
    assert_eq!(string_from_chars(&rest), "48.3'C");
    assert_eq!(string_from_chars(&strip_suffix_chars(&rest, &v("'C")).unwrap()), "48.3");
    assert!(strip_prefix_chars(&s, &v("volt=")).is_none());
    assert!(strip_suffix_chars(&v("C"), &v("'C")).is_none());
}

#[test]
fn second_field_is_split_nth_one() {
    for text in ["frequency(48)=1500398464", "a=b=c", "noequals", "=x", "x=", "=="] {
        let expected = text.split('=').nth(1).map(|s| s.to_string());
        let got = second_field_chars(&v(text), '=').map(|c| string_from_chars(&c));
        assert_eq!(got, expected, "text {:?}", text);
    }
}

#[test]
fn remove_char_takes_out_every_occurrence() {
    assert_eq!(string_from_chars(&remove_char_chars(&v("eth0:"), ':')), "eth0");
    assert_eq!(string_from_chars(&remove_char_chars(&v("4%5%"), '%')), "45");
}

#[test]
fn unsigned_numbers_parse_like_std() {
    for text in ["0", "42", "+7", "", "+", "-1", "1a", "007", "18446744073709551615",
                 "18446744073709551616", "99999999999999999999x", " 1"] {
        assert_eq!(parse_u64(&v(text)), text.parse::<u64>().ok(), "u64 {:?}", text);
    }
    for text in ["8080", "65535", "65536", "+80", "-80", "port", "70000"] {
        assert_eq!(parse_u16(&v(text)), text.parse::<u16>().ok(), "u16 {:?}", text);
    }
}

#[test]
fn decimal_digits_render_numbers() {
    for n in [0u64, 7, 10, 8080, 65535, u64::MAX] {
        assert_eq!(string_from_chars(&decimal_chars(n)), n.to_string());
        assert_eq!(parse_u64(&decimal_chars(n)), Some(n));
    }
    assert_eq!(chars_of("ab"), vec!['a', 'b']);
}
