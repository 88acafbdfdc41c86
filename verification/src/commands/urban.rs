//! The urban command: a definition from the Urban Dictionary, titled with
//! the defined word.
use crate::text::{extend_str, from_chars, to_chars};
use vstd::prelude::*;

verus! {

/// `c` in upper case, for an ASCII letter; any other character unchanged.
pub open spec fn ascii_upper(c: char) -> char {
    if 'a' <= c && c <= 'z' {
        ((c as u32) - 32) as char
    } else {
        c
    }
}

/// `s` with its first character in upper case.
pub open spec fn capitalize_spec(s: Seq<char>) -> Seq<char> {
    if s.len() == 0 {
        s
    } else {
        seq![ascii_upper(s[0])] + s.skip(1)
    }
}

/// `s` with its first character in upper case. The first character must be
/// ASCII: the first byte is cut off and upper-cased on its own.
pub fn capitalize(s: &str) -> (r: String)
    requires
        s@.len() == 0 || (s@[0] as u32) < 128,
    ensures
        r@ == capitalize_spec(s@),
{
    let cs = to_chars(s);
    if cs.len() == 0 {
        return from_chars(cs.as_slice());
    }
    let c = cs[0];
    let first = if 'a' <= c && c <= 'z' {
        let b: u8 = (c as u8) - 32;
        b as char
    } else {
        c
    };
    let mut v: Vec<char> = Vec::new();
    v.push(first);
    let mut i: usize = 1;
    while i < cs.len()
        invariant
            1 <= i <= cs@.len(),
            cs@ == s@,
            v@ == seq![first] + s@.subrange(1, i as int),
        decreases cs.len() - i,
    {
        v.push(cs[i]);
        assert(s@.subrange(1, i + 1) =~= s@.subrange(1, i as int).push(s@[i as int]));
        i = i + 1;
    }
    assert(s@.subrange(1, s@.len() as int) =~= s@.skip(1));
    assert(first == ascii_upper(s@[0]));
    from_chars(v.as_slice())
}

/// The answer when the dictionary has no definition.
pub open spec fn no_definition_text_spec() -> Seq<char> {
    "Couldn't find any definitions, maybe check spelling?"@
}

/// The answer when the dictionary has no definition.
pub fn no_definition_text() -> (r: String)
    ensures
        r@ == no_definition_text_spec(),
{
    let mut v: Vec<char> = Vec::new();
    extend_str(&mut v, "Couldn't find any definitions, maybe check spelling?");
    from_chars(v.as_slice())
}

} // verus!
