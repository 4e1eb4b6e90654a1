use douyin_downloader::text::{
    chars_of, check_space, find_first, find_last, head_before, match_at, push_decimal,
    replace_all, string_of, strip_char, trim_bounds,
};

fn chars(s: &str) -> Vec<char> {
    s.chars().collect()
}

#[test]
fn characters_of_a_string() {
    assert_eq!(chars_of("a标b"), vec!['a', '标', 'b']);
    assert_eq!(chars_of(""), Vec::<char>::new());
    assert_eq!(string_of(&chars("a标bc"), 1, 3), "标b");
    assert_eq!(string_of(&chars("abc"), 2, 2), "");
}

#[test]
fn first_and_last_occurrence() {
    let text = chars("a/b/c.d.e");
    assert_eq!(find_first(&text, '/'), 1);
    assert_eq!(find_last(&text, '/'), Some(3));
    assert_eq!(find_last(&text, '.'), Some(7));
    assert_eq!(find_first(&text, '#'), 9);
    assert_eq!(find_last(&text, '#'), None);
    assert_eq!(find_first(&chars(""), 'a'), 0);
    assert_eq!(find_last(&chars(""), 'a'), None);
    assert_eq!(find_last(&chars("a"), 'a'), Some(0));
}

#[test]
fn white_space_is_what_std_calls_white_space() {
    for code in 0u32..=0x11_0000 {
        if let Some(c) = char::from_u32(code) {
            assert_eq!(check_space(c), c.is_whitespace(), "U+{:04X}", code);
        }
    }
}

#[test]
fn trimming_agrees_with_std() {
    let cases = [
        "",
        " ",
        "a",
        "  a b  ",
        "\t\n a\u{3000}",
        "\u{3000}\u{a0}",
        "x \u{2028}",
        "\u{feff}x ",
    ];
    for case in cases {
        let text = chars(case);
        let (from, to) = trim_bounds(&text, 0, text.len());
        assert_eq!(string_of(&text, from, to), case.trim());
    }
    let text = chars("ab  cd  ef");
    assert_eq!(trim_bounds(&text, 2, 8), (4, 6));
    assert_eq!(trim_bounds(&text, 2, 4), (4, 4));
}

#[test]
fn decimal_digits() {
    let written = |n: u64| {
        let mut out = String::from("n=");
        push_decimal(&mut out, n);
        out
    };
    assert_eq!(written(0), "n=0");
    assert_eq!(written(7), "n=7");
    assert_eq!(written(10), "n=10");
    assert_eq!(written(1234567890), "n=1234567890");
    assert_eq!(written(u64::MAX), "n=18446744073709551615");
}

#[test]
fn characters_are_stripped() {
    assert_eq!(strip_char(&chars("\"a\"b\""), 0, 5, '"'), "ab");
    assert_eq!(strip_char(&chars("a/b/c"), 1, 4, '/'), "b");
    assert_eq!(strip_char(&chars("///"), 0, 3, '/'), "");
}

#[test]
fn head_of_a_text() {
    assert_eq!(head_before("a#b#c", '#'), "a");
    assert_eq!(head_before("#b", '#'), "");
    assert_eq!(head_before("abc", '#'), "abc");
    assert_eq!(head_before("", '#'), "");
}

#[test]
fn pattern_at_an_index() {
    let text = chars("xplaywm");
    assert!(match_at(&text, &chars("playwm"), 1));
    assert!(!match_at(&text, &chars("playwm"), 0));
    assert!(!match_at(&text, &chars("playwm"), 2));
    assert!(match_at(&text, &chars(""), 7));
    assert!(!match_at(&text, &chars("m!"), 6));
}

#[test]
fn replacing_agrees_with_std() {
    let cases = [
        ("playwm/playwm", "playwm", "play"),
        ("aaaa", "aa", "b"),
        ("aaa", "aa", "b"),
        ("abc", "abc", ""),
        ("abc", "abcd", "x"),
        ("", "a", "b"),
        ("ratio=720p&ratio=720", "ratio=720p", "ratio=1080p"),
        ("ababab", "ab", "abab"),
        ("标题标", "标", "题题"),
    ];
    for (text, from, to) in cases {
        assert_eq!(replace_all(text, from, to), text.replace(from, to));
    }
}

#[test]
fn empty_pattern_replaces_nothing() {
    assert_eq!(replace_all("abc", "", "x"), "abc");
}
