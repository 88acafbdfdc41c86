use autovirt::uwu::{emoji, uwu_core_chars, uwu_word_with, uwuify, uwuify_with, WordRoll, EMOJIS_SIZE};

fn chars(s: &str) -> Vec<char> {
    s.chars().collect()
}

fn word(w: &str, emoji: Option<usize>, stutters: usize) -> String {
    uwu_word_with(&chars(w), WordRoll { emoji, stutters }).iter().collect()
}

#[test]
fn letters_are_replaced() {
    assert_eq!(word("hello", None, 0), "hewwo");
    assert_eq!(word("the", None, 0), "fe");
    assert_eq!(word("dinner", None, 0), "tinnyew");
    assert_eq!(word("world", None, 0), "wowwt");
    assert_eq!(word("nanu", None, 0), "nyanyu");
    assert_eq!(uwu_core_chars(&chars("dad")).iter().collect::<String>(), "tat");
}

#[test]
fn stutters_and_emoticons() {
    assert_eq!(word("hello", None, 2), "h-h-hewwo");
    assert_eq!(word("hello", Some(0), 0), "hewwo OwO");
    assert_eq!(word("hello", Some(14), 1), "h-hewwo~");
    assert_eq!(word("hello", Some(6), 0), "hewwo nyaa\\~\\~");
}

#[test]
fn no_stutter_for_short_or_symbol_words() {
    assert_eq!(word("hi", None, 3), "hi");
    assert_eq!(word("!!!hi", None, 3), "!!!hi");
    assert_eq!(word("éé", None, 1), "é-éé");
}

#[test]
fn links_and_empty_words_stay() {
    assert_eq!(word("https://example.com/lord", Some(3), 2), "https://example.com/lord");
    assert_eq!(word("", Some(3), 2), "");
}

#[test]
fn whole_texts() {
    let rolls = [WordRoll { emoji: None, stutters: 0 }, WordRoll { emoji: Some(3), stutters: 0 }];
    assert_eq!(uwuify_with("hello world", &rolls), "hewwo wowwt :3");
    assert_eq!(uwuify_with("a  b", &[]), "a  b");
    assert_eq!(uwuify_with("", &[]), "");
}

#[test]
fn random_uwuify_keeps_the_core() {
    for _ in 0..50 {
        let out = uwuify("HELLO".to_string());
        assert!(out.contains("hewwo"), "{}", out);
        assert!(out.len() <= "h-h-h-hewwo nyaa\\~\\~".len());
        let link = uwuify("https://X.com".to_string());
        assert_eq!(link, "https://x.com");
    }
}

#[test]
fn every_emoticon_is_available() {
    for i in 0..EMOJIS_SIZE {
        assert!(!emoji(i).is_empty());
    }
    assert_eq!(emoji(13), "〜☆");
}
