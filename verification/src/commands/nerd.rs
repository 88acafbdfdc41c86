//! The "Nerd" context-menu command: quote the message back.
use crate::text::{extend_str, from_chars};
use vstd::prelude::*;

verus! {

/// The quoted message followed by the nerd emoji.
pub open spec fn nerd_text_spec(content: Seq<char>) -> Seq<char> {
    "\""@ + content + "\"\n\\- :nerd:"@
}

/// The quoted message followed by the nerd emoji.
pub fn nerd_text(content: &str) -> (r: String)
    ensures
        r@ == nerd_text_spec(content@),
{
    let mut v: Vec<char> = Vec::new();
    extend_str(&mut v, "\"");
    extend_str(&mut v, content);
    extend_str(&mut v, "\"\n\\- :nerd:");
    from_chars(v.as_slice())
}

} // verus!
