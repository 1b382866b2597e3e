use http_server::text::chars::{chars_of, same, slice, string_of};
use http_server::text::decimal::{decimal_text, digit_char};
use http_server::text::search::{find, has, matches_at, remove_all};
use http_server::text::space::{is_whitespace, split_whitespace, trim};
use http_server::text::split::split;

fn cs(s: &str) -> Vec<char> {
    s.chars().collect()
}

fn strings(v: Vec<Vec<char>>) -> Vec<String> {
    v.iter().map(|w| w.iter().collect()).collect()
}

const SAMPLES: [&str; 14] = [
    "",
    "a",
    "aaa",
    "aaaa",
    "ababab",
    "\r\n",
    "\r\n\r\n",
    "a\r\nb\r\n",
    "\r\r\n\n",
    " lead and trail \t",
    "\u{2003}wide\u{2003}\u{85}space\u{3000}",
    "/echo/echo//echo/",
    "/ec/echo/ho/",
    "h\u{e9}llo w\u{f6}rld",
];

const MARKS: [&str; 7] = ["a", "aa", "ab", "\r\n", "/echo/", " ", "\u{e9}"];

#[test]
fn characters_in_and_out() {
    for s in SAMPLES {
        assert_eq!(chars_of(s), cs(s));
        assert_eq!(string_of(&cs(s)), s);
    }
    assert_eq!(string_of(&vec!['a', '\u{1f600}', 'b']), "a\u{1f600}b");
}

#[test]
fn slice_copies_a_range() {
    let s = cs("abcdef");
    assert_eq!(slice(&s, 0, 6), cs("abcdef"));
    assert_eq!(slice(&s, 2, 4), cs("cd"));
    assert_eq!(slice(&s, 3, 3), cs(""));
}

#[test]
fn same_compares_in_full() {
    assert!(same(&cs("abc"), &cs("abc")));
    assert!(!same(&cs("abc"), &cs("abd")));
    assert!(!same(&cs("abc"), &cs("ab")));
    assert!(same(&cs(""), &cs("")));
}

#[test]
fn whitespace_is_the_unicode_property() {
    let mut n: u32 = 0;
    while n <= 0x10FFFF {
        if let Some(c) = char::from_u32(n) {
            assert_eq!(is_whitespace(c), c.is_whitespace(), "U+{:04X}", n);
        }
        n += 1;
    }
}

#[test]
fn matches_at_an_index() {
    let s = cs("abcabc");
    assert!(matches_at(&s, &cs("abc"), 0));
    assert!(matches_at(&s, &cs("abc"), 3));
    assert!(!matches_at(&s, &cs("abc"), 1));
    assert!(!matches_at(&s, &cs("abc"), 4));
    assert!(!matches_at(&s, &cs("abc"), 7));
    assert!(matches_at(&s, &cs(""), 6));
}

#[test]
fn find_gives_the_first_place() {
    let s = cs("abcabc");
    assert_eq!(find(&s, &cs("bc"), 0), 1);
    assert_eq!(find(&s, &cs("bc"), 1), 1);
    assert_eq!(find(&s, &cs("bc"), 2), 4);
    assert_eq!(find(&s, &cs("bc"), 5), 6);
    assert_eq!(find(&s, &cs("x"), 0), 6);
    assert_eq!(find(&s, &cs("abcabcd"), 0), 6);
    assert_eq!(find(&s, &cs("bc"), 9), 6);
}

#[test]
fn has_agrees_with_contains() {
    for s in SAMPLES {
        for m in MARKS {
            assert_eq!(has(&cs(s), &cs(m)), s.contains(m), "{:?} {:?}", s, m);
        }
    }
}

#[test]
fn remove_all_agrees_with_replace() {
    for s in SAMPLES {
        for m in MARKS {
            assert_eq!(string_of(&remove_all(&cs(s), &cs(m))), s.replace(m, ""), "{:?} {:?}", s, m);
        }
    }
}

#[test]
fn remove_all_takes_occurrences_from_the_left() {
    assert_eq!(remove_all(&cs("aaa"), &cs("aa")), cs("a"));
    assert_eq!(remove_all(&cs("/ec/echo/ho/"), &cs("/echo/")), cs("/echo/"));
    assert_eq!(remove_all(&cs("abc"), &cs("")), cs("abc"));
}

#[test]
fn split_agrees_with_str_split() {
    for s in SAMPLES {
        for m in MARKS {
            let expected: Vec<String> = s.split(m).map(|p| p.to_string()).collect();
            assert_eq!(strings(split(&cs(s), &cs(m))), expected, "{:?} {:?}", s, m);
        }
    }
}

#[test]
fn split_keeps_empty_pieces() {
    assert_eq!(strings(split(&cs(""), &cs("\r\n"))), vec![""]);
    assert_eq!(strings(split(&cs("\r\n"), &cs("\r\n"))), vec!["", ""]);
    assert_eq!(strings(split(&cs("a\r\n\r\nb"), &cs("\r\n"))), vec!["a", "", "b"]);
    assert_eq!(strings(split(&cs("aaa"), &cs("aa"))), vec!["", "a"]);
}

#[test]
fn words_agree_with_split_whitespace() {
    for s in SAMPLES {
        let expected: Vec<String> = s.split_whitespace().map(|p| p.to_string()).collect();
        assert_eq!(strings(split_whitespace(&cs(s))), expected, "{:?}", s);
    }
    assert_eq!(strings(split_whitespace(&cs("  a \t b\nc  "))), vec!["a", "b", "c"]);
    assert!(split_whitespace(&cs(" \t\r\n")).is_empty());
}

#[test]
fn trim_agrees_with_str_trim() {
    for s in SAMPLES {
        assert_eq!(string_of(&trim(&cs(s))), s.trim(), "{:?}", s);
    }
    assert_eq!(trim(&cs("  a b  ")), cs("a b"));
    assert_eq!(trim(&cs(" \t\n ")), cs(""));
    assert_eq!(trim(&cs("")), cs(""));
    assert_eq!(trim(&cs("x")), cs("x"));
}

#[test]
fn decimal_text_writes_base_ten() {
    assert_eq!(decimal_text(0), cs("0"));
    assert_eq!(decimal_text(7), cs("7"));
    assert_eq!(decimal_text(10), cs("10"));
    assert_eq!(decimal_text(1024), cs("1024"));
    assert_eq!(decimal_text(9876543210), cs("9876543210"));
    assert_eq!(string_of(&decimal_text(usize::MAX)), format!("{}", usize::MAX));
    assert_eq!(digit_char(0), '0');
    assert_eq!(digit_char(9), '9');
}

#[test]
fn pieces_joined_give_the_text_back() {
    for s in SAMPLES {
        for m in MARKS {
            let parts = strings(split(&cs(s), &cs(m)));
            assert_eq!(parts.join(m), s, "{:?} {:?}", s, m);
            for part in &parts {
                assert!(!part.contains(m), "{:?} {:?}", s, m);
            }
        }
    }
}

#[test]
fn words_are_not_empty_and_hold_no_whitespace() {
    for s in SAMPLES {
        for word in split_whitespace(&cs(s)) {
            assert!(!word.is_empty());
            assert!(!word.iter().any(|c| is_whitespace(*c)));
        }
    }
}

#[test]
fn trimmed_text_has_clean_ends() {
    for s in SAMPLES {
        let t = trim(&cs(s));
        if let (Some(first), Some(last)) = (t.first(), t.last()) {
            assert!(!is_whitespace(*first));
            assert!(!is_whitespace(*last));
        } else {
            assert!(cs(s).iter().all(|c| is_whitespace(*c)));
        }
        assert_eq!(trim(&t), t);
    }
}

#[test]
fn decimal_text_reads_back() {
    for n in [0usize, 1, 9, 10, 11, 99, 100, 101, 999, 1000, 65535, 4294967295] {
        let text = string_of(&decimal_text(n));
        assert_eq!(text.parse::<usize>().unwrap(), n);
        assert_eq!(text, format!("{}", n));
    }
}

#[test]
fn text_without_the_pattern_is_left_alone() {
    assert_eq!(remove_all(&cs("/ech/o/"), &cs("/echo/")), cs("/ech/o/"));
    assert_eq!(remove_all(&cs("/echo/abc"), &cs("/echo/")), cs("abc"));
    assert_eq!(remove_all(&cs("/echo/echo/"), &cs("/echo/")), cs("echo/"));
}

#[test]
fn an_empty_pattern_cuts_nowhere() {
    assert_eq!(strings(split(&cs("abc"), &cs(""))), vec!["abc"]);
    assert_eq!(strings(split(&cs(""), &cs(""))), vec![""]);
    assert!(has(&cs("abc"), &cs("")));
    assert!(has(&cs(""), &cs("")));
    assert!(!has(&cs(""), &cs("a")));
}

#[test]
fn first_piece_and_the_pieces_of_the_rest() {
    let whole = strings(split(&cs("ab\r\ncd\r\n\r\nef"), &cs("\r\n")));
    let rest = strings(split(&cs("cd\r\n\r\nef"), &cs("\r\n")));
    assert_eq!(whole[0], "ab");
    assert_eq!(whole[1..], rest[..]);
    assert_eq!(strings(split(&cs("no mark here"), &cs("\r\n"))), vec!["no mark here"]);
}
