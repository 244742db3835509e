use wally::text::{
    byte_len_gt, chars_of, decimal_chars, is_boundary_at, is_whitespace, join_chars, lex_less, lines_of,
    pad_left_chars, pad_right_chars, parse_u32, parse_u64, replace_char_chars, skip_bytes, split_char_of,
    string_of, take_bytes, trim_chars, words_of,
};

const SAMPLES: &[&str] = &[
    "",
    "\n",
    "a",
    "a\n",
    "a\nb",
    "a\r\nb\r\n",
    "a\r",
    "\r\n\r\n",
    "x\n\ny\n",
    "  lead and trail  ",
    "\u{3000}wide\u{a0}space\u{2029}",
    "tab\tsep\u{85}next\u{1680}end",
    "h\u{e9}llo w\u{f6}rld \u{1f600}",
    "a.b..c.",
];

fn cv(s: &str) -> Vec<char> {
    s.chars().collect()
}

fn to_strings(v: Vec<Vec<char>>) -> Vec<String> {
    v.into_iter().map(|c| c.into_iter().collect()).collect()
}

#[test]
fn lines_agree_with_std() {
    for s in SAMPLES {
        let want: Vec<String> = s.lines().map(|l| l.to_string()).collect();
        assert_eq!(to_strings(lines_of(&cv(s))), want, "lines of {:?}", s);
    }
}

#[test]
fn words_agree_with_std() {
    for s in SAMPLES {
        let want: Vec<String> = s.split_whitespace().map(|l| l.to_string()).collect();
        assert_eq!(to_strings(words_of(&cv(s))), want, "words of {:?}", s);
    }
}

#[test]
fn split_agrees_with_std() {
    for s in SAMPLES {
        let want: Vec<String> = s.split('.').map(|l| l.to_string()).collect();
        assert_eq!(to_strings(split_char_of(&cv(s), '.')), want, "split of {:?}", s);
    }
}

#[test]
fn trim_agrees_with_std() {
    for s in SAMPLES {
        let t: String = trim_chars(&cv(s)).into_iter().collect();
        assert_eq!(t, s.trim(), "trim of {:?}", s);
    }
}

#[test]
fn whitespace_agrees_with_std() {
    for u in 0..0x3100u32 {
        if let Some(c) = char::from_u32(u) {
            assert_eq!(is_whitespace(c), c.is_whitespace(), "U+{:04X}", u);
        }
    }
}

#[test]
fn parse_agrees_with_std() {
    let inputs = [
        "", "0", "7", "+5", "-1", "+", "00012", "4294967295", "4294967296", "18446744073709551615",
        "18446744073709551616", "1_000", " 1", "1 ", "12a", "\u{663}",
    ];
    for s in inputs {
        assert_eq!(parse_u32(&cv(s)), s.parse::<u32>().ok(), "u32 of {:?}", s);
        assert_eq!(parse_u64(&cv(s)), s.parse::<u64>().ok(), "u64 of {:?}", s);
    }
}

#[test]
fn decimal_agrees_with_std() {
    for n in [0u64, 9, 10, 99, 100, 12345, u64::MAX] {
        let d: String = decimal_chars(n).into_iter().collect();
        assert_eq!(d, n.to_string());
    }
}

#[test]
fn padding_agrees_with_std() {
    for s in ["", "ab", "h\u{e9}llo", "exactly-ten", "much longer than ten"] {
        let r: String = pad_right_chars(&cv(s), 10).into_iter().collect();
        assert_eq!(r, format!("{:<10}", s));
        let l: String = pad_left_chars(&cv(s), 10).into_iter().collect();
        assert_eq!(l, format!("{:>10}", s));
    }
}

#[test]
fn byte_offsets_agree_with_std() {
    for s in SAMPLES {
        let c = cv(s);
        for b in 0..=s.len() + 2 {
            assert_eq!(byte_len_gt(&c, b), s.len() > b, "len of {:?} > {}", s, b);
            assert_eq!(is_boundary_at(&c, b), s.is_char_boundary(b), "boundary {} of {:?}", b, s);
            if s.is_char_boundary(b) {
                let tail: String = skip_bytes(&c, b).into_iter().collect();
                assert_eq!(tail, &s[b..]);
                let head: String = take_bytes(&c, b).into_iter().collect();
                assert_eq!(head, &s[..b]);
            }
        }
    }
}

#[test]
fn order_agrees_with_std() {
    for a in SAMPLES {
        for b in SAMPLES {
            assert_eq!(lex_less(&cv(a), &cv(b)), a.to_string() < b.to_string(), "{:?} < {:?}", a, b);
        }
    }
}

#[test]
fn join_and_replace_agree_with_std() {
    let parts: Vec<Vec<char>> = vec![cv("a"), cv(""), cv("b\u{e9}")];
    let joined: String = join_chars(&parts, &cv(", ")).into_iter().collect();
    assert_eq!(joined, ["a", "", "b\u{e9}"].join(", "));
    assert!(join_chars(&Vec::new(), &cv(",")).is_empty());
    for s in SAMPLES {
        let r: String = replace_char_chars(&cv(s), '\n', ' ').into_iter().collect();
        assert_eq!(r, s.replace('\n', " "));
    }
}

#[test]
fn conversions_round_trip() {
    for s in SAMPLES {
        assert_eq!(chars_of(s), cv(s));
        assert_eq!(string_of(&cv(s)), *s);
    }
}
