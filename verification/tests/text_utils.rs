//! The character-level utilities: trimming, replacement, substring
//! search, ordering, and decimal parsing with its overflow edges.

use cryn_rs::text::{chars_to_string, contains_chars, parse_i32, replace_chars, str_eq, str_le,
    str_to_chars, trim_chars};

fn chars(s: &str) -> Vec<char> {
    str_to_chars(s)
}

#[test]
fn round_trip_chars_and_string() {
    let v = chars("hello <td> & _x_");
    assert_eq!(chars_to_string(&v), "hello <td> & _x_");
    assert_eq!(chars_to_string(&chars("")), "");
}

#[test]
fn trim_matches_std() {
    for s in ["  spaced  ", "none", "", "   ", "\t\n x \r\n", "a b"] {
        assert_eq!(chars_to_string(&trim_chars(&chars(s))), s.trim());
    }
}

#[test]
fn replace_matches_std() {
    let cases = [
        ("a&amp;b&amp;c", "&amp;", "&"),
        ("___", "_", ""),
        ("G.G.1", "G.", ""),
        ("nothing", "xyz", "q"),
        ("aaa", "aa", "b"),
    ];
    for (s, pat, rep) in cases {
        let got = chars_to_string(&replace_chars(&chars(s), &chars(pat), &chars(rep)));
        assert_eq!(got, s.replace(pat, rep));
    }
}

#[test]
fn contains_matches_std() {
    let cases = [("abcdef", "cde"), ("abcdef", "xyz"), ("abc", ""), ("", "a"), ("aab", "ab")];
    for (s, pat) in cases {
        assert_eq!(contains_chars(&chars(s), &chars(pat)), s.contains(pat));
    }
}

#[test]
fn parse_i32_matches_std() {
    let cases = [
        "42", "-7", "+13", "0", "007", "", "+", "-", "x", "4 2", "2147483647", "2147483648",
        "-2147483648", "-2147483649", "99999999999999999999",
    ];
    for s in cases {
        assert_eq!(parse_i32(&chars(s)), s.parse::<i32>().ok(), "case {s:?}");
    }
}

#[test]
fn string_compare_helpers() {
    assert!(str_eq("same", "same"));
    assert!(!str_eq("same", "sam"));
    assert!(!str_eq("same", "samf"));
    assert!(str_le("ARTS100", "MATH101"));
    assert!(!str_le("MATH101", "ARTS100"));
    assert!(str_le("ABC", "ABC"));
    assert!(str_le("AB", "ABC"));
    assert!(!str_le("ABC", "AB"));
}
