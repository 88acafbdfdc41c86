//! The moyai board: messages that collect enough 🗿 reactions from other
//! users are reposted in a board channel, and the post follows the count.
use crate::text::{
    decimal, extend_str, from_chars, push_decimal, push_signed_decimal, signed_decimal, str_eq,
};
use vstd::prelude::*;

verus! {

/// The reaction the board counts.
pub fn moyai() -> (r: &'static str)
    ensures
        r@ == "🗿"@,
{
    "🗿"
}

/// A guild's settings.
pub struct Settings {
    pub guild: u64,
    /// How many reactions put a message on the board (no board when absent).
    pub board_threshold: Option<i32>,
    /// Where board posts go.
    pub board_channel: Option<u64>,
    /// The role needed to edit autoreply rules (anyone when absent).
    pub reply_role: Option<u64>,
}

impl Settings {
    /// The settings of a guild that has set nothing.
    pub fn unset(guild: u64) -> (r: Settings)
        ensures
            r.guild == guild,
            r.board_threshold is None,
            r.board_channel is None,
            r.reply_role is None,
    {
        Settings { guild, board_threshold: None, board_channel: None, reply_role: None }
    }
}

/// A message on the board.
pub struct BoardEntry {
    pub message: String,
    pub guild_id: u64,
    pub message_id: u64,
    /// The board post that shows it, if posting succeeded.
    pub post_id: Option<u64>,
    pub stars: i32,
}

/// What to do after a message's reaction count changed.
#[derive(Clone, Copy, Debug, PartialEq, Eq, Structural)]
pub enum BoardAction {
    /// Leave the board as it is.
    Nothing,
    /// Store the new count and show it on the existing post.
    Update,
    /// The message fell below the threshold: take its post down.
    Delete,
    /// The message reached the threshold: post it on the board.
    Create,
}

/// The board's decision for a message with `count` reactions, in a guild
/// whose threshold is `threshold` (no board when absent), given whether the
/// message is on the board already.
pub open spec fn board_action_spec(threshold: Option<i32>, on_board: bool, count: i32) -> BoardAction {
    match threshold {
        None => BoardAction::Nothing,
        Some(t) => if on_board {
            if count >= t {
                BoardAction::Update
            } else {
                BoardAction::Delete
            }
        } else if count >= t {
            BoardAction::Create
        } else {
            BoardAction::Nothing
        },
    }
}

/// The board's decision after a message's reaction count changed: guilds
/// without settings, or without a threshold, have no board.
pub fn board_action(settings: Option<&Settings>, on_board: bool, count: i32) -> (r: BoardAction)
    ensures
        r == board_action_spec(
            match settings {
                None => None,
                Some(s) => s.board_threshold,
            },
            on_board,
            count,
        ),
{
    let threshold = match settings {
        None => None,
        Some(s) => s.board_threshold,
    };
    match threshold {
        None => BoardAction::Nothing,
        Some(t) => if on_board {
            if count >= t {
                BoardAction::Update
            } else {
                BoardAction::Delete
            }
        } else if count >= t {
            BoardAction::Create
        } else {
            BoardAction::Nothing
        },
    }
}

/// The same decision where a threshold of 0 stands for "no board".
pub fn board_action_by_threshold(threshold: i32, on_board: bool, count: i32) -> (r: BoardAction)
    ensures
        r == board_action_spec(if threshold == 0 { None } else { Some(threshold) }, on_board, count),
{
    if threshold == 0 {
        BoardAction::Nothing
    } else if on_board {
        if count >= threshold {
            BoardAction::Update
        } else {
            BoardAction::Delete
        }
    } else if count >= threshold {
        BoardAction::Create
    } else {
        BoardAction::Nothing
    }
}

/// The post to take down for an entry that fell below the threshold: the
/// board channel and the post, when the entry has a post.
pub fn delete_target(entry: &BoardEntry, settings: &Settings) -> (r: Option<(u64, u64)>)
    requires
        settings.board_channel is Some,
    ensures
        r == match entry.post_id {
            Some(p) => Some((settings.board_channel->0, p)),
            None => None,
        },
{
    let channel = match settings.board_channel {
        Some(c) => c,
        None => 0,
    };
    match entry.post_id {
        Some(p) => Some((channel, p)),
        None => None,
    }
}

/// The post to edit for an entry whose count changed: the board channel
/// and the post, when the entry has a post.
pub fn update_target(entry: &BoardEntry, settings: &Settings) -> (r: Option<(u64, u64)>)
    requires
        entry.post_id is Some ==> settings.board_channel is Some,
    ensures
        r == match entry.post_id {
            Some(p) => Some((settings.board_channel->0, p)),
            None => None,
        },
{
    match entry.post_id {
        Some(p) => match settings.board_channel {
            Some(c) => Some((c, p)),
            None => None,
        },
        None => None,
    }
}

/// The text of a board post: the count and the moyai.
pub open spec fn post_content_spec(count: int) -> Seq<char> {
    signed_decimal(count) + " "@ + "🗿"@
}

/// The text of a board post: the count and the moyai.
pub fn post_content(count: i32) -> (r: String)
    ensures
        r@ == post_content_spec(count as int),
{
    let mut v: Vec<char> = Vec::new();
    push_signed_decimal(&mut v, count as i64);
    extend_str(&mut v, " ");
    extend_str(&mut v, moyai());
    from_chars(v.as_slice())
}

/// Whether a reaction concerns the board: the moyai, in a guild.
pub fn is_board_reaction(emoji: Option<&str>, guild: Option<u64>) -> (r: bool)
    ensures
        r == (guild is Some && match emoji {
            Some(e) => e@ == "🗿"@,
            None => false,
        }),
{
    match emoji {
        None => false,
        Some(e) => str_eq(e, moyai()) && guild.is_some(),
    }
}

/// The bot's own picture, used where a user has none.
pub open spec fn default_picture_spec() -> Seq<char> {
    "https://thevirt.ru/bot_pfp.png"@
}

/// The author picture of a board post: the author's avatar, or the bot's
/// own picture when the author has none.
pub fn picture_or_default(avatar: Option<String>) -> (r: String)
    ensures
        r@ == match avatar {
            Some(a) => a@,
            None => default_picture_spec(),
        },
{
    match avatar {
        Some(a) => a,
        None => {
            let mut v: Vec<char> = Vec::new();
            extend_str(&mut v, "https://thevirt.ru/bot_pfp.png");
            from_chars(v.as_slice())
        },
    }
}

/// The address of a user's avatar on Discord's CDN, from the avatar's hash.
pub open spec fn avatar_url_spec(user: u64, hash: Seq<char>, animated: bool) -> Seq<char> {
    "https://cdn.discordapp.com/"@ + decimal(user as nat) + "/"@ + hash + "."@ + (if animated {
        "gif"@
    } else {
        "png"@
    })
}

/// The address of a user's avatar on Discord's CDN, from the avatar's hash.
pub fn avatar_url(user: u64, hash: &str, animated: bool) -> (r: String)
    ensures
        r@ == avatar_url_spec(user, hash@, animated),
{
    let mut v: Vec<char> = Vec::new();
    extend_str(&mut v, "https://cdn.discordapp.com/");
    push_decimal(&mut v, user);
    extend_str(&mut v, "/");
    extend_str(&mut v, hash);
    extend_str(&mut v, ".");
    if animated {
        extend_str(&mut v, "gif");
    } else {
        extend_str(&mut v, "png");
    }
    from_chars(v.as_slice())
}

/// A link that jumps to a message.
pub open spec fn jump_link_spec(guild: u64, channel: u64, message: u64) -> Seq<char> {
    "[Jump](https://discord.com/channels/"@ + decimal(guild as nat) + "/"@ + decimal(channel as nat)
        + "/"@ + decimal(message as nat) + ")"@
}

/// A link that jumps to a message.
pub fn jump_link(guild: u64, channel: u64, message: u64) -> (r: String)
    ensures
        r@ == jump_link_spec(guild, channel, message),
{
    let mut v: Vec<char> = Vec::new();
    extend_str(&mut v, "[Jump](https://discord.com/channels/");
    push_decimal(&mut v, guild);
    extend_str(&mut v, "/");
    push_decimal(&mut v, channel);
    extend_str(&mut v, "/");
    push_decimal(&mut v, message);
    extend_str(&mut v, ")");
    from_chars(v.as_slice())
}

// ---------------------------------------------------------------------------
// Counting reactions
// ---------------------------------------------------------------------------

/// A user who reacted.
#[derive(Clone, Copy, Debug)]
pub struct Reactor {
    pub id: u64,
    pub bot: bool,
}

/// How many of `users` count for the board: users who are not bots and did
/// not write the message.
pub open spec fn counted(users: Seq<Reactor>, author: u64) -> nat
    decreases users.len(),
{
    if users.len() == 0 {
        0
    } else {
        let u = users.last();
        counted(users.drop_last(), author) + if !u.bot && u.id != author {
            1nat
        } else {
            0nat
        }
    }
}

/// How many of a page of users count for the board.
pub fn count_page(users: &[Reactor], author: u64) -> (r: u64)
    ensures
        r == counted(users@, author),
{
    let mut n: u64 = 0;
    let mut i: usize = 0;
    assert(users@.take(0) =~= Seq::<Reactor>::empty());
    while i < users.len()
        invariant
            i <= users@.len(),
            n == counted(users@.take(i as int), author),
            n <= i,
        decreases users.len() - i,
    {
        let ghost s = users@.take(i + 1);
        assert(s.drop_last() =~= users@.take(i as int));
        let u = users[i];
        if !u.bot && u.id != author {
            n = n + 1;
        }
        i = i + 1;
    }
    assert(users@.take(i as int) =~= users@);
    n
}

/// The running count over the pages of users who reacted, fetched one
/// after the other, each page after the last user of the previous one.
pub struct ReactionTally {
    /// The users counted so far.
    pub total: u64,
    /// The last user seen, after whom the next page starts.
    pub after: Option<u64>,
}

impl ReactionTally {
    /// Nothing counted yet; the first page starts at the beginning.
    pub fn new() -> (r: ReactionTally)
        ensures
            r.total == 0,
            r.after is None,
    {
        ReactionTally { total: 0, after: None }
    }

    /// Counts one page; returns whether another page is to be fetched
    /// (an empty page ends the count and changes nothing).
    pub fn feed(&mut self, page: &[Reactor], author: u64) -> (more: bool)
        requires
            old(self).total + page@.len() <= u64::MAX,
        ensures
            more == (page@.len() > 0),
            !more ==> *final(self) == *old(self),
            more ==> final(self).total == old(self).total + counted(page@, author),
            more ==> final(self).after == Some(page@.last().id),
    {
        if page.len() == 0 {
            return false;
        }
        proof {
            lemma_counted_bound(page@, author);
        }
        let n = count_page(page, author);
        self.total = self.total + n;
        self.after = Some(page[page.len() - 1].id);
        true
    }

    /// The count as an `i32`, or `None` when it does not fit.
    pub fn try_count(&self) -> (r: Option<i32>)
        ensures
            r == if self.total <= i32::MAX as u64 {
                Some(self.total as i32)
            } else {
                None::<i32>
            },
    {
        if self.total <= 2147483647u64 {
            Some(self.total as i32)
        } else {
            None
        }
    }
}

/// No more users count than reacted.
pub proof fn lemma_counted_bound(users: Seq<Reactor>, author: u64)
    ensures
        counted(users, author) <= users.len(),
    decreases users.len(),
{
    if users.len() > 0 {
        lemma_counted_bound(users.drop_last(), author);
    }
}

/// Counting page by page gives the count of all users together.
pub proof fn law_count_is_additive(first: Seq<Reactor>, rest: Seq<Reactor>, author: u64)
    ensures
        counted(first + rest, author) == counted(first, author) + counted(rest, author),
    decreases rest.len(),
{
    if rest.len() == 0 {
        assert(first + rest =~= first);
    } else {
        law_count_is_additive(first, rest.drop_last(), author);
        assert((first + rest).drop_last() =~= first + rest.drop_last());
    }
}


/// A guild without a threshold has no board: nothing is ever posted,
/// updated or taken down, whatever the count.
pub proof fn law_no_threshold_no_board(on_board: bool, count: i32)
    ensures
        board_action_spec(None, on_board, count) == BoardAction::Nothing,
{
}

/// With a threshold, a message is (re)posted or kept up exactly when its
/// count reaches the threshold; a message already on the board is never
/// posted twice, and one not on it is never updated or taken down.
pub proof fn law_board_follows_threshold(threshold: i32, on_board: bool, count: i32)
    ensures
        (board_action_spec(Some(threshold), on_board, count) == BoardAction::Create
            || board_action_spec(Some(threshold), on_board, count) == BoardAction::Update) <==> count
            >= threshold,
        on_board ==> board_action_spec(Some(threshold), on_board, count) != BoardAction::Create,
        !on_board ==> board_action_spec(Some(threshold), on_board, count) != BoardAction::Update
            && board_action_spec(Some(threshold), on_board, count) != BoardAction::Delete,
{
}

} // verus!
