use autovirt::rules::{
    added_text, exists_text, has_reply_role, missing_role_text, not_found_text, removed_text, Rule,
    RuleError, RuleSet,
};

fn rule(t: &str, r: &str, g: u64) -> Rule {
    Rule { trigger: t.to_string(), reply: r.to_string(), guild: g }
}

#[test]
fn add_lowercases_and_refuses_duplicates() {
    let mut set = RuleSet::new(vec![]);
    assert_eq!(set.add("Hello", "hi".to_string(), 1), Ok(()));
    assert!(set.has_rule("hello", 1));
    assert!(!set.has_rule("Hello", 1));
    assert!(!set.has_rule("hello", 2));
    assert_eq!(set.add("HELLO", "other".to_string(), 1), Err(RuleError::AlreadyExists));
    assert_eq!(set.len(), 1);
    assert_eq!(set.add("hello", "hey".to_string(), 2), Ok(()));
    assert_eq!(set.len(), 2);
}

#[test]
fn triggers_are_lowercased_with_the_unicode_mapping() {
    let mut set = RuleSet::new(vec![]);
    assert_eq!(set.add("HeLLo ÄB", "hi".to_string(), 1), Ok(()));
    assert!(set.has_rule("hello äb", 1));
    assert!(!set.has_rule("HeLLo ÄB", 1));
    assert_eq!(set.autoreply(false, Some(1), "SAY HELLO ÄB NOW"), Some("hi".to_string()));
}

#[test]
fn messages_get_the_replies_of_their_guild() {
    let set = RuleSet::new(vec![rule("hello", "hi", 1), rule("there", "!", 1), rule("hello", "yo", 2)]);
    assert_eq!(set.autoreply(false, Some(1), "well HELLO there"), Some("hi!".to_string()));
    assert_eq!(set.autoreply(false, Some(2), "well HELLO there"), Some("yo".to_string()));
    assert_eq!(set.autoreply(true, Some(1), "hello"), None);
    assert_eq!(set.autoreply(false, None, "hello"), None);
    assert_eq!(set.autoreply(false, Some(3), "hello"), None);
    assert_eq!(set.autoreply(false, Some(1), "nothing"), None);
}

#[test]
fn remove_takes_out_one_rule() {
    let mut set = RuleSet::new(vec![rule("hello", "hi", 1), rule("hello", "yo", 2)]);
    assert_eq!(set.remove("HELLO", 1), Ok(()));
    assert!(!set.has_rule("hello", 1));
    assert!(set.has_rule("hello", 2));
    assert_eq!(set.remove("hello", 1), Err(RuleError::NotFound));
    assert_eq!(set.autoreply(false, Some(2), "hello"), Some("yo".to_string()));
}

#[test]
fn remove_undoes_add() {
    let mut set = RuleSet::new(vec![rule("a", "1", 1), rule("b", "2", 1)]);
    let before = set.list_text(1);
    assert_eq!(set.add("c", "3".to_string(), 1), Ok(()));
    assert_eq!(set.remove("c", 1), Ok(()));
    assert_eq!(set.list_text(1), before);
    assert_eq!(set.len(), 2);
}

#[test]
fn listing_shows_trigger_and_reply_start() {
    let long = "x".repeat(70);
    let set = RuleSet::new(vec![rule("a", "line1\nline2", 1), rule("b", &long, 1), rule("c", "z", 2)]);
    let expected = format!("\n- a\n- - line1- - line2\n- b\n- - {}", "x".repeat(64));
    assert_eq!(set.list_text(1), expected);
    assert_eq!(set.list_text(3), "");
}

#[test]
fn older_handler_joins_all_replies() {
    let set = RuleSet::new(vec![rule("hi", "hello", 1), rule("yo", "sup", 2), rule("HI", "caps", 1)]);
    assert_eq!(set.message_reply_with(false, false, "hi yo"), Some("hello sup".to_string()));
    assert_eq!(set.message_reply_with(false, true, "zzz"), Some("*pees in your ass*".to_string()));
    assert_eq!(set.message_reply_with(false, true, "HI"), Some("*pees in your ass*caps".to_string()));
    assert_eq!(set.message_reply_with(false, false, "zzz"), None);
    assert_eq!(set.message_reply_with(true, true, "hi"), None);
    let r = set.message_reply(false, "hi");
    assert!(r == Some("hello".to_string()) || r == Some("*pees in your ass*hello".to_string()));
}

#[test]
fn reply_texts() {
    assert_eq!(exists_text("no"), "Rule already exists, delete it if you want to replace it.\nno");
    assert_eq!(added_text("me when", "good"), "Added rule `me when`!\ngood");
    assert_eq!(not_found_text("no"), "The rule you're trying to remove doesn't exist.\nno");
    assert_eq!(removed_text("balls", "good"), "Removed rule `balls`\ngood");
    assert_eq!(
        missing_role_text(42, "bad"),
        "You're missing the role required for the command, are you sure you have <@&42>?\nbad"
    );
}

#[test]
fn reply_role_gate() {
    assert!(has_reply_role(None, &[]));
    assert!(has_reply_role(Some(5), &[1, 5]));
    assert!(!has_reply_role(Some(5), &[1, 2]));
}

#[test]
fn rule_copies_are_equal() {
    let r = rule("a", "b", 3);
    let c = r.duplicate();
    assert_eq!((c.trigger, c.reply, c.guild), ("a".to_string(), "b".to_string(), 3));
    let set = RuleSet::new(vec![rule("q", "w", 9)]);
    assert_eq!(set.get(0).reply, "w");
}
