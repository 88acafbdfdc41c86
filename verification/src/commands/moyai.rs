//! The moyai list and top commands over the board's posts.
pub use crate::text::truncate;

use crate::text::{extend_str, first_chars, from_chars, push_signed_decimal, signed_decimal};
use vstd::prelude::*;

verus! {

/// A board post as the moyai commands read it.
pub struct MoyaiPost {
    pub author: String,
    pub message_content: String,
    pub moyai_count: i64,
}

/// One field of an embed: a title and a body.
pub struct Field {
    pub name: String,
    pub value: String,
}

/// The title of a post's field: author, count and the moyai.
pub open spec fn field_name_spec(author: Seq<char>, count: int) -> Seq<char> {
    author + ": "@ + signed_decimal(count) + " "@ + "🗿"@
}

/// The title of a post's field: author, count and the moyai.
pub fn field_name(author: &str, count: i64) -> (r: String)
    ensures
        r@ == field_name_spec(author@, count as int),
{
    let mut v: Vec<char> = Vec::new();
    extend_str(&mut v, author);
    extend_str(&mut v, ": ");
    push_signed_decimal(&mut v, count);
    extend_str(&mut v, " ");
    extend_str(&mut v, crate::board::moyai());
    from_chars(v.as_slice())
}

/// How many posts the top command lists: 10 unless asked otherwise.
pub fn top_amount(amount: Option<i64>) -> (r: i64)
    ensures
        r == match amount {
            Some(a) => a,
            None => 10,
        },
{
    match amount {
        Some(a) => a,
        None => 10,
    }
}

/// The fields of the posts that reach `threshold`, each with the first 128
/// characters of the content, in the posts' order.
pub open spec fn list_fields_spec(posts: Seq<MoyaiPost>, threshold: int) -> Seq<(Seq<char>, Seq<char>)>
    decreases posts.len(),
{
    if posts.len() == 0 {
        Seq::empty()
    } else {
        let pre = list_fields_spec(posts.drop_last(), threshold);
        let p = posts.last();
        if p.moyai_count >= threshold {
            pre.push((field_name_spec(p.author@, p.moyai_count as int), first_chars(p.message_content@, 128)))
        } else {
            pre
        }
    }
}

/// The fields' titles and bodies.
pub open spec fn field_views(fields: Seq<Field>) -> Seq<(Seq<char>, Seq<char>)> {
    Seq::new(fields.len(), |i: int| (fields[i].name@, fields[i].value@))
}

/// The fields of the list command: the posts that reach `threshold`.
pub fn list_fields(posts: &[MoyaiPost], threshold: i64) -> (r: Vec<Field>)
    ensures
        field_views(r@) == list_fields_spec(posts@, threshold as int),
{
    let mut out: Vec<Field> = Vec::new();
    let mut i: usize = 0;
    assert(posts@.take(0) =~= Seq::<MoyaiPost>::empty());
    assert(field_views(out@) =~= Seq::<(Seq<char>, Seq<char>)>::empty());
    while i < posts.len()
        invariant
            i <= posts@.len(),
            field_views(out@) == list_fields_spec(posts@.take(i as int), threshold as int),
        decreases posts.len() - i,
    {
        let ghost s = posts@.take(i + 1);
        assert(s.drop_last() =~= posts@.take(i as int));
        let p = &posts[i];
        if p.moyai_count >= threshold {
            let name = field_name(p.author.as_str(), p.moyai_count);
            let body = truncate(p.message_content.as_str(), 128);
            let mut bv: Vec<char> = Vec::new();
            extend_str(&mut bv, body);
            let value = from_chars(bv.as_slice());
            let ghost before = field_views(out@);
            out.push(Field { name, value });
            assert(field_views(out@) =~= before.push((field_name_spec(p.author@, p.moyai_count as int), first_chars(p.message_content@, 128))));
        }
        i = i + 1;
    }
    assert(posts@.take(i as int) =~= posts@);
    out
}

/// The fields of the top command: every post with its whole content.
pub fn top_fields(posts: &[MoyaiPost]) -> (r: Vec<Field>)
    ensures
        r@.len() == posts@.len(),
        forall|i: int|
            0 <= i < posts@.len() ==> (#[trigger] r@[i]).name@ == field_name_spec(posts@[i].author@, posts@[i].moyai_count as int)
                && r@[i].value@ == posts@[i].message_content@,
{
    let mut out: Vec<Field> = Vec::new();
    let mut i: usize = 0;
    while i < posts.len()
        invariant
            i <= posts@.len(),
            out@.len() == i,
            forall|j: int|
                0 <= j < i ==> (#[trigger] out@[j]).name@ == field_name_spec(posts@[j].author@, posts@[j].moyai_count as int)
                    && out@[j].value@ == posts@[j].message_content@,
        decreases posts.len() - i,
    {
        let p = &posts[i];
        let name = field_name(p.author.as_str(), p.moyai_count);
        let value = p.message_content.clone();
        out.push(Field { name, value });
        i = i + 1;
    }
    out
}

} // verus!
