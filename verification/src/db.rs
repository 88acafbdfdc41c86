//! Rows of the board table: stored messages and the entries listed by the
//! top-ten command.
use crate::text::{decimal, law_parse_undoes_decimal, parse_u64, parse_u64_spec};
use vstd::prelude::*;

verus! {

/// A board row: the message, its channel, the board post, a link to the
/// message and its moyai count. Ids are stored as decimal strings.
pub struct Message {
    pub msg_id: String,
    pub channel_id: String,
    pub post_id: String,
    pub link: String,
    pub moyai_count: u8,
}

impl Message {
    /// The row read back for a message that is not stored: all fields empty.
    pub fn empty() -> (r: Message)
        ensures
            r.msg_id@.len() == 0,
            r.channel_id@.len() == 0,
            r.post_id@.len() == 0,
            r.link@.len() == 0,
            r.moyai_count == 0,
    {
        Message {
            msg_id: String::new(),
            channel_id: String::new(),
            post_id: String::new(),
            link: String::new(),
            moyai_count: 0,
        }
    }

    /// Whether the row describes a stored message (a missing row reads back
    /// as the empty row).
    pub fn is_stored(&self) -> (r: bool)
        ensures
            r == (self.msg_id@.len() > 0),
    {
        !self.msg_id.as_str().is_empty()
    }
}

/// An entry of the top-ten list.
pub struct DBEntry {
    pub link: String,
    pub msg_id: String,
    pub channel_id: String,
    pub moyai_count: u8,
}

/// The post id of a stored row, 0 when it is not a number.
pub open spec fn post_id_or_zero(m: Message) -> u64 {
    match parse_u64_spec(m.post_id@) {
        Some(v) => v,
        None => 0,
    }
}

/// The board posts of the rows to clean up, in the rows' order: each post
/// id parsed, 0 where it is not a number.
pub fn clean_post_ids(rows: &[Message]) -> (r: Vec<u64>)
    ensures
        r@.len() == rows@.len(),
        forall|i: int| 0 <= i < rows@.len() ==> #[trigger] r@[i] == post_id_or_zero(rows@[i]),
{
    let mut out: Vec<u64> = Vec::new();
    let mut i: usize = 0;
    while i < rows.len()
        invariant
            i <= rows@.len(),
            out@.len() == i,
            forall|j: int| 0 <= j < i ==> #[trigger] out@[j] == post_id_or_zero(rows@[j]),
        decreases rows.len() - i,
    {
        let v = match parse_u64(rows[i].post_id.as_str()) {
            Some(v) => v,
            None => 0,
        };
        out.push(v);
        i = i + 1;
    }
    out
}


/// A post id stored as its decimal text is read back unchanged by the
/// clean-up.
pub proof fn law_stored_post_id_reads_back(row: Message, post: u64)
    requires
        row.post_id@ == decimal(post as nat),
    ensures
        post_id_or_zero(row) == post,
{
    law_parse_undoes_decimal(post);
}

} // verus!
