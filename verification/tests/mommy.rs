use autovirt::mommy::{
    beg, chunk_from, chunk_list_from, emotes, fill_with, negative, praise, substitute,
    substitute_with, BegList, Responses,
};

#[test]
fn placeholders_are_filled() {
    let chosen = ["mommy", "her", "girl", "pet", "milk", "\\~"];
    assert_eq!(
        fill_with("{role} loves {pronoun} {affectionate_term}~ {role}", &chosen),
        "mommy loves her girl\\~ mommy"
    );
    assert_eq!(fill_with("no placeholders", &chosen), "no placeholders");
}

#[test]
fn random_choice_is_an_option() {
    for _ in 0..30 {
        let c = chunk_from("{denigrating_term}");
        assert!(["slut", "toy", "pet", "pervert", "whore"].contains(&c.as_str()), "{}", c);
        assert_eq!(chunk_from("{role}~"), "mommy\\~");
    }
}

#[test]
fn lines_are_cut_at_spaces() {
    assert_eq!(chunk_list_from("good {affectionate_term}"), vec!["good", "girl"]);
    assert_eq!(chunk_list_from(""), vec![""]);
}

#[test]
fn responses_are_joined() {
    let chunks = vec!["a".to_string(), "b".to_string()];
    assert_eq!(substitute_with(&chunks, None), "a b ");
    assert_eq!(substitute_with(&chunks, Some(":heart:")), "a b :heart:");
    for _ in 0..20 {
        let s = substitute(&chunks);
        let tail = &s["a b ".len()..];
        assert!(s.starts_with("a b "));
        assert!(tail.is_empty() || emotes().contains(&tail), "{}", s);
    }
}

#[test]
fn praise_scold_and_beg_pick_a_line() {
    let r = Responses::from_lines(
        &["good {affectionate_term}".to_string()],
        &["bad {affectionate_term}".to_string()],
        &["beg {pronoun}".to_string()],
    );
    assert_eq!(r.counts(), (1, 1, 1));
    assert!(praise(&r).starts_with("good girl "));
    assert!(negative(&r).starts_with("bad girl "));
    assert!(beg(&r).starts_with("beg her "));
}

#[test]
fn responses_keep_every_line() {
    let lines = vec!["a".to_string(), "b c".to_string()];
    let r = Responses::from_lines(&lines, &[], &lines[..1]);
    assert_eq!(r.counts(), (2, 0, 1));
}

#[test]
fn begging_cycle() {
    let mut list = BegList::new();
    assert!(list.check_with(1, false));
    assert!(!list.contains(1));
    assert!(!list.check_with(1, true));
    assert!(list.contains(1));
    assert!(!list.check_with(1, false));
    assert!(!list.check(1));
    assert!(!list.message(1, "no"));
    assert!(list.contains(1));
    assert!(list.message(1, "PLEASE mommy"));
    assert!(!list.contains(1));
    assert!(list.check_with(1, false));
    assert!(!list.message(2, "please"));
}
