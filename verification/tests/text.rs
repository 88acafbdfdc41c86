use autovirt::text::{
    chunk_chars, contains_chars, from_chars, i64_to_string, join_chars, parse_u64,
    replace_all_chars, split_chars, str_eq, str_starts_with, to_chars, truncate, u64_to_string,
    utf8_len_exceeds,
};

fn chars(s: &str) -> Vec<char> {
    s.chars().collect()
}

#[test]
fn truncate_cuts_at_characters() {
    assert_eq!(truncate("héllo wörld", 4), "héll");
    assert_eq!(truncate("abc", 10), "abc");
    assert_eq!(truncate("abc", 3), "abc");
    assert_eq!(truncate("", 0), "");
    assert_eq!(truncate("abc", 0), "");
}

#[test]
fn chunks_reassemble_to_the_text() {
    let pieces = chunk_chars("abcdefg", 3);
    assert_eq!(pieces, vec!["abc".to_string(), "def".to_string(), "g".to_string()]);
    assert_eq!(pieces.concat(), "abcdefg");
    assert!(chunk_chars("", 5).is_empty());
    assert_eq!(chunk_chars("äöü", 1), vec!["ä", "ö", "ü"]);
    assert_eq!(chunk_chars("abc", 3), vec!["abc"]);
}

#[test]
fn decimal_formatting() {
    assert_eq!(u64_to_string(0), "0");
    assert_eq!(u64_to_string(1234567890), "1234567890");
    assert_eq!(u64_to_string(u64::MAX), u64::MAX.to_string());
    assert_eq!(i64_to_string(-42), "-42");
    assert_eq!(i64_to_string(i64::MIN), i64::MIN.to_string());
    assert_eq!(i64_to_string(7), "7");
}

#[test]
fn parsing_matches_the_standard_parser() {
    for s in [
        "123",
        "+7",
        "+",
        "",
        "-1",
        "007",
        "18446744073709551615",
        "18446744073709551616",
        "12a",
        " 1",
        "99999999999999999999999",
    ] {
        assert_eq!(parse_u64(s), s.parse::<u64>().ok(), "input {:?}", s);
    }
}

#[test]
fn parse_reads_back_what_decimal_wrote() {
    for n in [0u64, 9, 10, 852877128844050432, u64::MAX] {
        assert_eq!(parse_u64(&u64_to_string(n)), Some(n));
    }
}

#[test]
fn replace_matches_the_standard_replace() {
    let cases = [("aaa", "aa", "b"), ("the thing", "th", "f"), ("nanana", "na", "nya"), ("", "x", "y")];
    for (s, p, r) in cases {
        let out = replace_all_chars(&chars(s), &chars(p), &chars(r));
        assert_eq!(out.iter().collect::<String>(), s.replace(p, r));
    }
}

#[test]
fn split_and_join_give_the_text_back() {
    let words = split_chars(&chars("a  b"), ' ');
    assert_eq!(words, vec![chars("a"), chars(""), chars("b")]);
    assert_eq!(split_chars(&chars(""), ' '), vec![chars("")]);
    let joined = join_chars(&words, &[' ']);
    assert_eq!(joined, chars("a  b"));
    let words = split_chars(&chars(" x "), ' ');
    assert_eq!(words.len(), 3);
    assert_eq!(join_chars(&words, &[' ']), chars(" x "));
}

#[test]
fn string_helpers() {
    assert!(str_eq("abc", "abc"));
    assert!(!str_eq("abc", "abd"));
    assert!(!str_eq("abc", "ab"));
    assert!(str_starts_with("please", "ple"));
    assert!(!str_starts_with("pl", "ple"));
    assert!(contains_chars(&chars("hello"), &chars("ll")));
    assert!(contains_chars(&chars("hello"), &chars("")));
    assert!(!contains_chars(&chars("hello"), &chars("lo!")));
    assert_eq!(from_chars(&to_chars("héllo")), "héllo");
}

#[test]
fn utf8_length_counts_bytes() {
    assert!(!utf8_len_exceeds(&chars("ab"), 2));
    assert!(utf8_len_exceeds(&chars("abc"), 2));
    assert!(utf8_len_exceeds(&chars("é"), 1));
    assert!(!utf8_len_exceeds(&chars("é"), 2));
    assert!(utf8_len_exceeds(&chars("〜"), 2));
}
