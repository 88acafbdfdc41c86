//! Routing of slash-command interactions.
use crate::text::{extend_str, from_chars, str_eq};
use vstd::prelude::*;

verus! {

/// Which handler answers an interaction.
#[derive(Clone, Copy, Debug, PartialEq, Eq, Structural)]
pub enum Route {
    Uptime,
    Autoreply,
    Average,
    /// A command that has no handler yet.
    Unimplemented,
}

/// The handler for the command called `name`.
pub fn route(name: &str) -> (r: Route)
    ensures
        r == if name@ == "uptime"@ {
            Route::Uptime
        } else if name@ == "autoreply"@ {
            Route::Autoreply
        } else if name@ == "average"@ {
            Route::Average
        } else {
            Route::Unimplemented
        },
{
    if str_eq(name, "uptime") {
        Route::Uptime
    } else if str_eq(name, "autoreply") {
        Route::Autoreply
    } else if str_eq(name, "average") {
        Route::Average
    } else {
        Route::Unimplemented
    }
}

/// The answer to a command without a handler: it pings the owner.
pub open spec fn unimplemented_text_spec(name: Seq<char>) -> Seq<char> {
    "<@!852877128844050432>, you idiot, implement "@ + name
}

/// The answer to a command without a handler.
pub fn unimplemented_text(name: &str) -> (r: String)
    ensures
        r@ == unimplemented_text_spec(name@),
{
    let mut v: Vec<char> = Vec::new();
    extend_str(&mut v, "<@!852877128844050432>, you idiot, implement ");
    extend_str(&mut v, name);
    from_chars(v.as_slice())
}

} // verus!
