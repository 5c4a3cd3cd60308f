use logtrak::lines;
use logtrak::text;

fn joined(chars: Vec<char>) -> String {
    chars.into_iter().collect()
}

#[test]
fn white_space_is_that_of_std() {
    for code in 0..=0x10FFFFu32 {
        if let Some(c) = char::from_u32(code) {
            assert_eq!(text::is_white_space(c), c.is_whitespace(), "{code:x}");
        }
    }
}

#[test]
fn trimming_is_that_of_std() {
    for s in ["", " ", "a", " a b ", "\t\u{3000}x\u{a0}\n", "\u{200b}x\u{200b}", "  "] {
        assert_eq!(joined(text::trim(s)), s.trim(), "{s:?}");
    }
}

#[test]
fn searching_is_that_of_std() {
    for hay in ["", "a", "aaab", "{today}", "x{today", "\u{e9}a"] {
        for needle in ["", "a", "aab", "{today}", "\u{e9}", "aaaa"] {
            assert_eq!(text::contains(hay, needle), hay.contains(needle), "{hay} {needle}");
        }
    }
}

#[test]
fn replacing_is_that_of_std() {
    for s in ["", "aaaa", "abab", "{x}{x}", "a{x", "\u{e9}\u{e9}"] {
        for from in ["a", "aa", "ab", "{x}", "\u{e9}"] {
            for to in ["", "a", "{x}", "zz"] {
                assert_eq!(text::replace(s, from, to), s.replace(from, to), "{s} {from} {to}");
            }
        }
    }
}

#[test]
fn numbers_are_written_as_std_writes_them() {
    for n in [0, 1, 9, 10, 99, 100, 1234567890, u64::MAX] {
        assert_eq!(text::decimal_text(n), n.to_string());
        assert_eq!(text::pad(&n.to_string(), '0', 4), format!("{n:04}"));
        assert_eq!(text::pad(&n.to_string(), ' ', 2), format!("{n:>2}"));
    }
}

#[test]
fn numbers_are_read_up_to_a_bound() {
    let read = |s: &str, max: u32| {
        let chars: Vec<char> = s.chars().collect();
        text::parse_number(&chars, max)
    };
    assert_eq!(read("0042", 255), Some(42));
    assert_eq!(read("255", 255), Some(255));
    assert_eq!(read("256", 255), None);
    assert_eq!(read("99999999999999999999999999", u32::MAX), None);
    assert_eq!(read("", 255), None);
    assert_eq!(read("1a", 255), None);
}

#[test]
fn breaks_are_removed() {
    assert_eq!(text::remove_chars("a\nb\r\nc", '\n', '\r'), "abc");
}

#[test]
fn texts_are_joined() {
    let list: Vec<String> = ["a", "", "b"].iter().map(|s| s.to_string()).collect();
    assert_eq!(text::join_texts(&list, " | "), list.join(" | "));
    assert_eq!(text::join_texts(&Vec::new(), " | "), "");
    assert_eq!(text::join_lines(&list), "a\n\nb\n");
}

#[test]
fn lines_are_clipped_to_whole_characters() {
    assert_eq!(lines::clip("abcdef".to_string(), 3), "abc");
    assert_eq!(lines::clip("abc".to_string(), 3), "abc");
    assert_eq!(lines::clip("a\u{e9}\u{10348}z".to_string(), 3), "a\u{e9}");
    assert_eq!(lines::clip("a\u{e9}\u{10348}z".to_string(), 6), "a\u{e9}");
    assert_eq!(lines::clip("a\u{e9}\u{10348}z".to_string(), 7), "a\u{e9}\u{10348}");
    assert_eq!(lines::clip("\u{e9}".to_string(), 0), "");
}

#[test]
fn lines_lose_one_carriage_return() {
    assert_eq!(lines::decode_line(b"abc\r\r", 99), "abc\r");
    assert_eq!(lines::decode_line(b"\r", 99), "");
    assert_eq!(lines::decode_line(b"\xc3", 99), "\u{fffd}");
    assert_eq!(lines::decode_line("gr\u{fc}n".as_bytes(), 99), "gr\u{fc}n");
}
