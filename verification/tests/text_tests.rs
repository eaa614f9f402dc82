use carbonthrone::text::{
    chars_eq, chars_lt, chars_of, contains_char, find_str, starts_with_str, strip_prefix_str,
    strip_suffix_str, substring_string, trim_str,
};
use carbonthrone::yarn::split_char;

const SAMPLES: [&str; 8] = [
    "",
    "   ",
    "  padded\t",
    "\u{3000}wide space\u{a0}",
    "no-space",
    "a b  c",
    "\r\nline\r\n",
    "ünï cödé",
];

#[test]
fn trim_agrees_with_std() {
    for s in SAMPLES {
        assert_eq!(trim_str(s), s.trim(), "input {s:?}");
    }
}

#[test]
fn split_agrees_with_std() {
    for s in SAMPLES {
        let ours = split_char(s, ' ');
        let std: Vec<String> = s.split(' ').map(|p| p.to_string()).collect();
        assert_eq!(ours, std, "input {s:?}");
    }
}

#[test]
fn prefixes_and_suffixes() {
    assert!(starts_with_str("<<jump x>>", "<<"));
    assert!(!starts_with_str("<", "<<"));
    assert_eq!(strip_prefix_str("title: x", "title: "), Some("x"));
    assert_eq!(strip_prefix_str("x", "title: "), None);
    assert_eq!(strip_suffix_str("cmd>>", ">>"), Some("cmd"));
    assert_eq!(strip_suffix_str("cmd>", ">>"), None);
}

#[test]
fn find_counts_characters() {
    assert_eq!(find_str("é: x", ":"), Some(1));
    assert_eq!(find_str("abc", "d"), None);
    assert_eq!(find_str("abc", ""), Some(0));
    assert!(contains_char("a<b", '<'));
    assert!(!contains_char("ab", '<'));
    assert_eq!(substring_string("héllo", 1, 3), "él");
}

#[test]
fn character_order_matches_str_order() {
    let words = ["", "a", "ab", "b", "Z", "é", "aa"];
    for x in words {
        for y in words {
            let (cx, cy) = (chars_of(x), chars_of(y));
            assert_eq!(chars_lt(&cx, &cy), x < y, "{x:?} < {y:?}");
            assert_eq!(chars_eq(&cx, &cy), x == y);
        }
    }
}
