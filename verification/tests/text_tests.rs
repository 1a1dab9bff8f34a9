use corescribe::text::{
    chars_of, contains, ends_with, is_space_char, line_bounds, push_decimal,
    push_signed_decimal, same_text, starts_with, strip_prefixes_str, trim_str,
};

const SAMPLES: &[&str] = &[
    "",
    " ",
    "\n",
    "\r\n",
    "a",
    "  hello  ",
    "\t\u{00a0}mixed\u{3000} ",
    "line one\nline two",
    "line one\r\nline two\r\n",
    "trailing cr\r",
    "a\r\rb\n\nc",
    "\n\n\n",
    "x\n",
    "ÄÖÜ straße\u{2028}",
    "[00:00.000 --> 00:01.000] hi\n text ",
];

#[test]
fn space_matches_std_for_every_char() {
    for u in 0u32..=0x10ffff {
        if let Some(c) = char::from_u32(u) {
            assert_eq!(is_space_char(c), c.is_whitespace(), "U+{:04X}", u);
        }
    }
}

#[test]
fn chars_of_gives_every_char() {
    for s in SAMPLES {
        assert_eq!(chars_of(s), s.chars().collect::<Vec<char>>());
    }
}

#[test]
fn trim_matches_std() {
    for s in SAMPLES {
        assert_eq!(trim_str(s), s.trim());
    }
    assert_eq!(trim_str("  padded text \n"), "padded text");
}

#[test]
fn line_bounds_match_std_lines() {
    for s in SAMPLES {
        let c = chars_of(s);
        let got: Vec<String> = line_bounds(&c)
            .iter()
            .map(|&(lo, hi)| c[lo..hi].iter().collect())
            .collect();
        let want: Vec<String> = s.lines().map(|l| l.to_string()).collect();
        assert_eq!(got, want, "{:?}", s);
    }
}

#[test]
fn pattern_tests_match_std() {
    let pats = ["", "a", "line", "\r\n", "two", "straße", "zzz"];
    for s in SAMPLES {
        for p in pats {
            assert_eq!(starts_with(s, p), s.starts_with(p));
            assert_eq!(ends_with(s, p), s.ends_with(p));
            assert_eq!(contains(s, p), s.contains(p));
            assert_eq!(same_text(s, p), *s == p);
        }
    }
}

#[test]
fn strip_prefixes_matches_std() {
    let cases = [
        ("ERROR: ERROR: boom", "ERROR: "),
        ("ERROR: boom", "ERROR: "),
        ("no prefix", "ERROR: "),
        ("vvv1.2", "v"),
        ("", "v"),
        ("ERROR: ", "ERROR: "),
    ];
    for (s, p) in cases {
        assert_eq!(strip_prefixes_str(s, p), s.trim_start_matches(p));
    }
}

#[test]
fn decimal_matches_display() {
    for n in [0u64, 7, 10, 16, 24, 99, 100, 65535, u64::MAX] {
        let mut s = String::from("x");
        push_decimal(&mut s, n);
        assert_eq!(s, format!("x{}", n));
    }
    for n in [0i32, -1, 1, -42, i32::MIN, i32::MAX] {
        let mut s = String::new();
        push_signed_decimal(&mut s, n);
        assert_eq!(s, n.to_string());
    }
}
