//! What the bot's commands compute before they answer: the top-ten board
//! list, the uwu relay, the guild-only role command and the "crazy" recital.
pub mod dev;
pub mod handler;
pub mod moyai;
pub mod neko;
pub mod nerd;
pub mod scan;
pub mod sql;
pub mod uptime;
pub mod urban;

pub use crate::text::truncate;

use crate::db::DBEntry;
use crate::text::{
    decimal, extend_str, first_chars, from_chars, parse_u64, parse_u64_spec, push_decimal, str_eq,
    to_chars, encode_utf8_len, utf8_len_exceeds,
};
use vstd::prelude::*;

verus! {

// ---------------------------------------------------------------------------
// The top-ten list
// ---------------------------------------------------------------------------

/// A message of the top-ten list to fetch: where it is, its place in the
/// list and its moyai count.
#[derive(Clone, Copy, Debug)]
pub struct TopTarget {
    pub channel: u64,
    pub message: u64,
    pub place: usize,
    pub count: u8,
}

/// The entries whose channel and message ids are numbers, numbered from 1
/// in order; entries with a malformed id are skipped and take no place.
pub open spec fn top_targets_spec(entries: Seq<DBEntry>) -> Seq<TopTarget>
    decreases entries.len(),
{
    if entries.len() == 0 {
        Seq::<TopTarget>::empty()
    } else {
        let pre = top_targets_spec(entries.drop_last());
        let e = entries.last();
        match (parse_u64_spec(e.channel_id@), parse_u64_spec(e.msg_id@)) {
            (Some(c), Some(m)) => pre.push(
                TopTarget { channel: c, message: m, place: (pre.len() + 1) as usize, count: e.moyai_count },
            ),
            _ => pre,
        }
    }
}

/// The messages of the top-ten list to fetch, with their places.
pub fn top_targets(entries: &[DBEntry]) -> (r: Vec<TopTarget>)
    ensures
        r@ == top_targets_spec(entries@),
{
    let mut out: Vec<TopTarget> = Vec::new();
    let mut i: usize = 0;
    assert(entries@.take(0) =~= Seq::<DBEntry>::empty());
    while i < entries.len()
        invariant
            i <= entries@.len(),
            out@ == top_targets_spec(entries@.take(i as int)),
            out@.len() <= i,
        decreases entries.len() - i,
    {
        let ghost s = entries@.take(i + 1);
        assert(s.drop_last() =~= entries@.take(i as int));
        let e = &entries[i];
        match (parse_u64(e.channel_id.as_str()), parse_u64(e.msg_id.as_str())) {
            (Some(c), Some(m)) => {
                let place = out.len() + 1;
                out.push(TopTarget { channel: c, message: m, place, count: e.moyai_count });
            },
            _ => {},
        }
        i = i + 1;
    }
    assert(entries@.take(i as int) =~= entries@);
    out
}

/// A message's content as the list shows it: content longer than 127 bytes
/// is cut to its first 128 characters and followed by `...`.
pub open spec fn preview_spec(content: Seq<char>) -> Seq<char> {
    if encode_utf8_len(content) > 127 {
        first_chars(content, 128) + "..."@
    } else {
        content
    }
}

/// A message's content as the list shows it.
pub fn preview(content: &str) -> (r: String)
    ensures
        r@ == preview_spec(content@),
{
    let cs = to_chars(content);
    let mut v: Vec<char> = Vec::new();
    if utf8_len_exceeds(cs.as_slice(), 127) {
        extend_str(&mut v, truncate(content, 128));
        extend_str(&mut v, "...");
    } else {
        extend_str(&mut v, content);
    }
    from_chars(v.as_slice())
}

/// The title of a list field: author, place and count.
pub open spec fn top_field_name_spec(author: Seq<char>, place: nat, count: nat) -> Seq<char> {
    author + ": #"@ + decimal(place) + " - "@ + decimal(count) + ":moyai:"@
}

/// The title of a list field: author, place and count.
pub fn top_field_name(author: &str, place: usize, count: u8) -> (r: String)
    ensures
        r@ == top_field_name_spec(author@, place as nat, count as nat),
{
    let mut v: Vec<char> = Vec::new();
    extend_str(&mut v, author);
    extend_str(&mut v, ": #");
    push_decimal(&mut v, place as u64);
    extend_str(&mut v, " - ");
    push_decimal(&mut v, count as u64);
    extend_str(&mut v, ":moyai:");
    from_chars(v.as_slice())
}

/// The body of a list field: the content, then a link to the message.
pub open spec fn top_field_value_spec(content: Seq<char>, jump: Seq<char>) -> Seq<char> {
    content + "\n[Jump]("@ + jump + ")"@
}

/// The body of a list field: the content, then a link to the message.
pub fn top_field_value(content: &str, jump: &str) -> (r: String)
    ensures
        r@ == top_field_value_spec(content@, jump@),
{
    let mut v: Vec<char> = Vec::new();
    extend_str(&mut v, content);
    extend_str(&mut v, "\n[Jump](");
    extend_str(&mut v, jump);
    extend_str(&mut v, ")");
    from_chars(v.as_slice())
}

// ---------------------------------------------------------------------------
// The uwu relay
// ---------------------------------------------------------------------------

/// Whether relayed text fits in a message (at most 2000 bytes); longer text
/// is sent as a file.
pub fn fits_in_message(content: &str) -> (r: bool)
    ensures
        r == (encode_utf8_len(content@) <= 2000),
{
    let cs = to_chars(content);
    !utf8_len_exceeds(cs.as_slice(), 2000)
}

// ---------------------------------------------------------------------------
// The guild-only role command
// ---------------------------------------------------------------------------

/// The one guild where the role command works.
pub open spec fn embrace_guild() -> u64 {
    1023332212403351563
}

/// The role that the command gives.
pub open spec fn embrace_role_id() -> u64 {
    1023334181952049203
}

/// The role to give in `guild`, if the command works there.
pub fn embrace_role(guild: u64) -> (r: Option<u64>)
    ensures
        r == if guild == embrace_guild() {
            Some(embrace_role_id())
        } else {
            None::<u64>
        },
{
    if guild == 1023332212403351563u64 {
        Some(1023334181952049203u64)
    } else {
        None
    }
}

// ---------------------------------------------------------------------------
// The crazy recital
// ---------------------------------------------------------------------------

/// The recital only answers the exact invocation `crazy`.
pub fn crazy_check(invocation: &str) -> (r: bool)
    ensures
        r == (invocation@ == "crazy"@),
{
    str_eq(invocation, "crazy")
}

/// Line number `step` of the recital, sent one second apart; `None` after
/// the last one.
pub open spec fn crazy_line_spec(step: nat) -> Option<Seq<char>> {
    if step == 0 {
        Some("Crazy?"@)
    } else if step == 1 {
        Some("I was crazy once."@)
    } else if step == 2 {
        Some("They locked me in a room."@)
    } else if step == 3 {
        Some("A rubber room."@)
    } else if step == 4 {
        Some("A rubber room with rats."@)
    } else if step == 5 {
        Some("And rats make me crazy."@)
    } else {
        None
    }
}

/// Line number `step` of the recital.
pub fn crazy_line(step: usize) -> (r: Option<&'static str>)
    ensures
        match r {
            Some(s) => crazy_line_spec(step as nat) == Some(s@),
            None => crazy_line_spec(step as nat) is None,
        },
{
    if step == 0 {
        Some("Crazy?")
    } else if step == 1 {
        Some("I was crazy once.")
    } else if step == 2 {
        Some("They locked me in a room.")
    } else if step == 3 {
        Some("A rubber room.")
    } else if step == 4 {
        Some("A rubber room with rats.")
    } else if step == 5 {
        Some("And rats make me crazy.")
    } else {
        None
    }
}

} // verus!
