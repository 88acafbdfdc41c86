use autovirt::board::{
    avatar_url, board_action, board_action_by_threshold, count_page, delete_target,
    is_board_reaction, jump_link, picture_or_default, post_content, update_target, BoardAction,
    BoardEntry, ReactionTally, Reactor, Settings,
};

fn settings(threshold: Option<i32>, channel: Option<u64>) -> Settings {
    Settings { guild: 1, board_threshold: threshold, board_channel: channel, reply_role: None }
}

fn entry(post: Option<u64>) -> BoardEntry {
    BoardEntry { message: "m".to_string(), guild_id: 1, message_id: 2, post_id: post, stars: 0 }
}

#[test]
fn board_decisions() {
    let s = settings(Some(3), Some(9));
    assert_eq!(board_action(None, true, 10), BoardAction::Nothing);
    assert_eq!(board_action(Some(&settings(None, Some(9))), false, 10), BoardAction::Nothing);
    assert_eq!(board_action(Some(&s), true, 3), BoardAction::Update);
    assert_eq!(board_action(Some(&s), true, 2), BoardAction::Delete);
    assert_eq!(board_action(Some(&s), false, 3), BoardAction::Create);
    assert_eq!(board_action(Some(&s), false, 2), BoardAction::Nothing);
    assert_eq!(board_action_by_threshold(0, true, 5), BoardAction::Nothing);
    assert_eq!(board_action_by_threshold(2, false, 5), BoardAction::Create);
    assert_eq!(board_action_by_threshold(2, true, 1), BoardAction::Delete);
    let unset = Settings::unset(4);
    assert_eq!(board_action(Some(&unset), false, 100), BoardAction::Nothing);
}

#[test]
fn posts_to_touch() {
    let s = settings(Some(3), Some(9));
    assert_eq!(delete_target(&entry(Some(7)), &s), Some((9, 7)));
    assert_eq!(delete_target(&entry(None), &s), None);
    assert_eq!(update_target(&entry(Some(7)), &s), Some((9, 7)));
    assert_eq!(update_target(&entry(None), &settings(Some(3), None)), None);
}

#[test]
fn post_texts_and_links() {
    assert_eq!(post_content(5), "5 🗿");
    assert_eq!(post_content(-1), "-1 🗿");
    assert_eq!(avatar_url(12, "a_abc", true), "https://cdn.discordapp.com/12/a_abc.gif");
    assert_eq!(avatar_url(12, "abc", false), "https://cdn.discordapp.com/12/abc.png");
    assert_eq!(jump_link(1, 2, 3), "[Jump](https://discord.com/channels/1/2/3)");
    assert_eq!(picture_or_default(None), "https://thevirt.ru/bot_pfp.png");
    assert_eq!(picture_or_default(Some("x".to_string())), "x");
}

#[test]
fn only_moyai_in_guilds_counts() {
    assert!(is_board_reaction(Some("🗿"), Some(1)));
    assert!(!is_board_reaction(Some("🗿"), None));
    assert!(!is_board_reaction(Some("👍"), Some(1)));
    assert!(!is_board_reaction(None, Some(1)));
}

#[test]
fn tally_skips_bots_and_the_author() {
    let page1 = [Reactor { id: 1, bot: false }, Reactor { id: 2, bot: true }, Reactor { id: 3, bot: false }];
    let page2 = [Reactor { id: 4, bot: false }, Reactor { id: 5, bot: false }];
    let mut t = ReactionTally::new();
    assert!(t.feed(&page1, 3));
    assert_eq!((t.total, t.after), (1, Some(3)));
    assert!(t.feed(&page2, 3));
    assert_eq!((t.total, t.after), (3, Some(5)));
    assert!(!t.feed(&[], 3));
    assert_eq!((t.total, t.after), (3, Some(5)));
    assert_eq!(t.try_count(), Some(3));
    let all: Vec<Reactor> = page1.iter().chain(page2.iter()).copied().collect();
    assert_eq!(count_page(&all, 3), count_page(&page1, 3) + count_page(&page2, 3));
    let big = ReactionTally { total: 1 << 40, after: None };
    assert_eq!(big.try_count(), None);
}
