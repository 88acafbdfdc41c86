//! The owner's message commands (`;sql ...` in a plain message).
use crate::commands::sql::{format_rows, rows_text, Column};
use crate::text::{chunk_chars, chunks, extend_str, from_chars, str_eq, sub_chars, to_chars};
use vstd::prelude::*;

verus! {

/// The bot owner's user id.
pub open spec fn owner_id() -> u64 {
    852877128844050432
}

/// The position of the first `c` in `s`, if any.
pub open spec fn first_index(s: Seq<char>, c: char) -> Option<nat>
    decreases s.len(),
{
    if s.len() == 0 {
        None
    } else if s[0] == c {
        Some(0)
    } else {
        match first_index(s.drop_first(), c) {
            Some(i) => Some(i + 1),
            None => None,
        }
    }
}

/// `s` cut at its first `c`: what comes before and what comes after.
pub open spec fn split_once_spec(s: Seq<char>, c: char) -> Option<(Seq<char>, Seq<char>)> {
    match first_index(s, c) {
        Some(i) => Some((s.take(i as int), s.skip(i as int + 1))),
        None => None,
    }
}

/// The argument of an owner's `;sql` message: the text after the first
/// space, when the owner wrote the message and the text before it is `;sql`.
pub open spec fn sql_argument_spec(author: u64, content: Seq<char>) -> Option<Seq<char>> {
    if author != owner_id() {
        None
    } else {
        match split_once_spec(content, ' ') {
            Some((cmd, arg)) => if cmd == ";sql"@ {
                Some(arg)
            } else {
                None
            },
            None => None,
        }
    }
}

/// `first_index` finds the first occurrence.
proof fn lemma_first_index(s: Seq<char>, c: char, i: int)
    requires
        0 <= i < s.len(),
        s[i] == c,
        forall|j: int| 0 <= j < i ==> s[j] != c,
    ensures
        first_index(s, c) == Some(i as nat),
    decreases i,
{
    if i > 0 {
        lemma_first_index(s.drop_first(), c, i - 1);
    }
}

/// `first_index` is `None` when `c` does not occur.
proof fn lemma_first_index_none(s: Seq<char>, c: char)
    requires
        forall|j: int| 0 <= j < s.len() ==> s[j] != c,
    ensures
        first_index(s, c) is None,
    decreases s.len(),
{
    if s.len() > 0 {
        lemma_first_index_none(s.drop_first(), c);
    }
}

/// The argument of an owner's `;sql` message, if it is one.
pub fn sql_argument(author: u64, content: &str) -> (r: Option<String>)
    ensures
        match r {
            Some(a) => sql_argument_spec(author, content@) == Some(a@),
            None => sql_argument_spec(author, content@) is None,
        },
{
    if author != 852877128844050432u64 {
        return None;
    }
    let cs = to_chars(content);
    let mut i: usize = 0;
    while i < cs.len()
        invariant
            i <= cs@.len(),
            cs@ == content@,
            author == 852877128844050432u64,
            forall|j: int| 0 <= j < i ==> cs@[j] != ' ',
        decreases cs.len() - i,
    {
        if cs[i] == ' ' {
            proof {
                lemma_first_index(content@, ' ', i as int);
            }
            let cmd = from_chars(sub_chars(cs.as_slice(), 0, i).as_slice());
            let arg = from_chars(sub_chars(cs.as_slice(), i + 1, cs.len()).as_slice());
            assert(content@.subrange(0, i as int) =~= content@.take(i as int));
            assert(content@.subrange(i + 1, content@.len() as int) =~= content@.skip(i + 1));
            if str_eq(cmd.as_str(), ";sql") {
                return Some(arg);
            } else {
                return None;
            }
        }
        i = i + 1;
    }
    proof {
        lemma_first_index_none(content@, ' ');
    }
    None
}

/// The query result as the owner's message command prints it, in a code
/// block.
pub open spec fn query_output_spec(rows: Seq<Vec<Column>>) -> Seq<char> {
    "```\n"@ + rows_text(rows) + "```"@
}

/// The query result in a code block.
pub fn query_output(rows: &[Vec<Column>]) -> (r: String)
    ensures
        r@ == query_output_spec(rows@),
{
    let body = format_rows(rows);
    let mut v: Vec<char> = Vec::new();
    extend_str(&mut v, "```\n");
    extend_str(&mut v, body.as_str());
    extend_str(&mut v, "```");
    from_chars(v.as_slice())
}

/// A failed query's error in a code block.
pub open spec fn query_error_spec(error: Seq<char>) -> Seq<char> {
    "```\n"@ + error + "\n```"@
}

/// A failed query's error in a code block.
pub fn query_error(error: &str) -> (r: String)
    ensures
        r@ == query_error_spec(error@),
{
    let mut v: Vec<char> = Vec::new();
    extend_str(&mut v, "```\n");
    extend_str(&mut v, error);
    extend_str(&mut v, "\n```");
    from_chars(v.as_slice())
}

/// The output cut into messages of at most 2000 characters.
pub fn message_pieces(out: &str) -> (r: Vec<String>)
    ensures
        r@.len() == chunks(out@, 2000).len(),
        forall|k: int| 0 <= k < r@.len() ==> #[trigger] r@[k]@ == chunks(out@, 2000)[k],
{
    chunk_chars(out, 2000)
}

} // verus!
