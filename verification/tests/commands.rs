use autovirt::commands::dev::{message_pieces, query_error, query_output, sql_argument};
use autovirt::commands::handler::{route, unimplemented_text, Route};
use autovirt::commands::moyai::{field_name, list_fields, top_amount, top_fields, MoyaiPost};
use autovirt::commands::neko::{
    autocomplete_category, invalid_category_text, is_category, matching_categories, neko_amount,
};
use autovirt::commands::nerd::nerd_text;
use autovirt::commands::scan::{can_scan, chronological, first_moyai, next_cursor};
use autovirt::commands::sql::{format_rows, reply_pieces, Column};
use autovirt::commands::uptime::uptime_text;
use autovirt::commands::urban::{capitalize, no_definition_text};
use autovirt::commands::{
    crazy_check, crazy_line, embrace_role, fits_in_message, preview, top_field_name,
    top_field_value, top_targets, truncate,
};
use autovirt::db::{clean_post_ids, DBEntry, Message};

fn db_entry(channel: &str, msg: &str, count: u8) -> DBEntry {
    DBEntry { link: String::new(), msg_id: msg.to_string(), channel_id: channel.to_string(), moyai_count: count }
}

#[test]
fn top_list_places_skip_malformed_ids() {
    let entries = [db_entry("1", "2", 9), db_entry("x", "3", 8), db_entry("4", "5", 7)];
    let t = top_targets(&entries);
    assert_eq!(t.len(), 2);
    assert_eq!((t[0].channel, t[0].message, t[0].place, t[0].count), (1, 2, 1, 9));
    assert_eq!((t[1].channel, t[1].message, t[1].place, t[1].count), (4, 5, 2, 7));
}

#[test]
fn top_list_texts() {
    assert_eq!(preview("short"), "short");
    let long = "é".repeat(100);
    assert_eq!(preview(&long), format!("{}...", "é".repeat(100)));
    let longer = "a".repeat(200);
    assert_eq!(preview(&longer), format!("{}...", "a".repeat(128)));
    assert_eq!(preview(&"a".repeat(127)), "a".repeat(127));
    assert_eq!(top_field_name("virt", 1, 12), "virt: #1 - 12:moyai:");
    assert_eq!(top_field_value("hi", "https://x"), "hi\n[Jump](https://x)");
    assert_eq!(truncate("abcdef", 2), "ab");
}

#[test]
fn relay_length_limit() {
    assert!(fits_in_message(&"a".repeat(2000)));
    assert!(!fits_in_message(&"a".repeat(2001)));
    assert!(!fits_in_message(&"é".repeat(1001)));
}

#[test]
fn guild_only_role_and_recital() {
    assert_eq!(embrace_role(1023332212403351563), Some(1023334181952049203));
    assert_eq!(embrace_role(1), None);
    assert!(crazy_check("crazy"));
    assert!(!crazy_check("Crazy"));
    assert_eq!(crazy_line(0), Some("Crazy?"));
    assert_eq!(crazy_line(5), Some("And rats make me crazy."));
    assert_eq!(crazy_line(6), None);
}

#[test]
fn moyai_fields() {
    let posts = vec![
        MoyaiPost { author: "a".to_string(), message_content: "x".repeat(130), moyai_count: 5 },
        MoyaiPost { author: "b".to_string(), message_content: "y".to_string(), moyai_count: 1 },
    ];
    assert_eq!(field_name("a", 5), "a: 5 🗿");
    let fields = list_fields(&posts, 3);
    assert_eq!(fields.len(), 1);
    assert_eq!(fields[0].name, "a: 5 🗿");
    assert_eq!(fields[0].value, "x".repeat(128));
    let all = top_fields(&posts);
    assert_eq!(all.len(), 2);
    assert_eq!(all[1].name, "b: 1 🗿");
    assert_eq!(all[0].value, "x".repeat(130));
    assert_eq!(top_amount(None), 10);
    assert_eq!(top_amount(Some(3)), 3);
}

#[test]
fn neko_choices() {
    assert_eq!(neko_amount(None), 1);
    assert_eq!(neko_amount(Some(0)), 1);
    assert_eq!(neko_amount(Some(50)), 20);
    assert_eq!(neko_amount(Some(7)), 7);
    let cats = vec!["hug".to_string(), "husbando".to_string(), "neko".to_string()];
    assert_eq!(matching_categories(&cats, "hu"), vec!["hug", "husbando"]);
    assert_eq!(matching_categories(&cats, ""), cats);
    assert!(is_category(&cats, "neko"));
    assert!(!is_category(&cats, "cat"));
    assert_eq!(
        invalid_category_text("cat", &cats),
        "cat is not a valid category, the available categories are:\nhug, husbando, neko"
    );
    assert_eq!(autocomplete_category("ne"), vec!["neko"]);
    assert_eq!(autocomplete_category("ha"), vec!["handhold", "handshake", "happy"]);
    assert_eq!(autocomplete_category("zz"), Vec::<String>::new());
    let all = autocomplete_category("");
    assert_eq!(all.len(), 63);
    assert_eq!(all.first().map(|c| c.as_str()), Some("angry"));
    assert_eq!(all.last().map(|c| c.as_str()), Some("yeet"));
}

#[test]
fn nerd_quote() {
    assert_eq!(nerd_text("hi"), "\"hi\"\n\\- :nerd:");
}

#[test]
fn scan_order_and_cursor() {
    let pages = vec![vec![10, 9, 8], vec![7, 6, 5], vec![]];
    assert_eq!(chronological(pages), vec![5, 6, 7, 8, 9, 10]);
    assert_eq!(next_cursor(&[10, 9, 8]), Some(8));
    assert_eq!(next_cursor(&[]), None);
    assert!(can_scan(852877128844050432));
    assert!(!can_scan(1));
    let reactions = [Some("👍".to_string()), None, Some("🗿".to_string())];
    assert_eq!(first_moyai(&reactions), Some(2));
    assert_eq!(first_moyai(&reactions[..2]), None);
}

#[test]
fn sql_output() {
    assert_eq!(autovirt::commands::sql::stringify(Some("abc"), None), "abc");
    assert_eq!(autovirt::commands::sql::stringify(None, Some(-3)), "-3");
    assert_eq!(autovirt::commands::sql::stringify(None, None), "None");
    assert_eq!(autovirt::commands::sql::stringify(Some("https://a.b"), None), "<https://a.b>");
    let rows = vec![
        vec![Column { name: "id".to_string(), text: None, number: Some(1) }],
        vec![
            Column { name: "id".to_string(), text: None, number: Some(2) },
            Column { name: "url".to_string(), text: Some("http://x".to_string()), number: None },
        ],
    ];
    assert_eq!(format_rows(&rows), "0:\n  id -> 1\n1:\n  id -> 2\n  url -> <http://x>\n");
    assert_eq!(query_output(&rows[..1]), "```\n0:\n  id -> 1\n```");
    assert_eq!(query_error("boom"), "```\nboom\n```");
    let pieces = reply_pieces(&"a".repeat(5000));
    assert_eq!(pieces.len(), 2);
    assert_eq!(pieces[0].len(), 4096);
    assert_eq!(message_pieces(&"a".repeat(4001)).len(), 3);
}

#[test]
fn owner_sql_messages() {
    let owner = 852877128844050432;
    assert_eq!(sql_argument(owner, ";sql select 1"), Some("select 1".to_string()));
    assert_eq!(sql_argument(owner, ";sql"), None);
    assert_eq!(sql_argument(owner, ";foo bar"), None);
    assert_eq!(sql_argument(1, ";sql select 1"), None);
    assert_eq!(sql_argument(owner, ";sql "), Some(String::new()));
}

#[test]
fn interaction_routes() {
    assert_eq!(route("uptime"), Route::Uptime);
    assert_eq!(route("autoreply"), Route::Autoreply);
    assert_eq!(route("average"), Route::Average);
    assert_eq!(route("markov"), Route::Unimplemented);
    assert_eq!(unimplemented_text("markov"), "<@!852877128844050432>, you idiot, implement markov");
}

#[test]
fn uptime_breakdown() {
    assert_eq!(uptime_text(90061, 1_234_567, "good"), "Uptime: 1d 1h 1m 1s 1ms 234micros 567ns\ngood");
    assert_eq!(uptime_text(0, 0, ""), "Uptime: 0d 0h 0m 0s 0ms 0micros 0ns\n");
}

#[test]
fn urban_titles() {
    assert_eq!(capitalize("imouto"), "Imouto");
    assert_eq!(capitalize(""), "");
    assert_eq!(capitalize("1st"), "1st");
    assert_eq!(capitalize("Ok"), "Ok");
    assert_eq!(no_definition_text(), "Couldn't find any definitions, maybe check spelling?");
}

#[test]
fn board_rows() {
    let row = |post: &str| Message {
        msg_id: "1".to_string(),
        channel_id: "2".to_string(),
        post_id: post.to_string(),
        link: String::new(),
        moyai_count: 0,
    };
    assert_eq!(clean_post_ids(&[row("5"), row("x"), row("852877128844050432")]), vec![5, 0, 852877128844050432]);
    assert!(row("5").is_stored());
    assert!(!Message::empty().is_stored());
}
