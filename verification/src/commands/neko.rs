//! The neko command: images of a nekos.best category.
use crate::text::{extend_str, from_chars, join_with, starts_with, str_eq, str_starts_with};
use vstd::prelude::*;

verus! {

/// How many images to fetch: 1 unless asked otherwise, kept within 1..=20.
pub fn neko_amount(amount: Option<u8>) -> (r: u8)
    ensures
        r == ({
            let a = match amount {
                Some(a) => a,
                None => 1u8,
            };
            if a < 1 {
                1u8
            } else if a > 20 {
                20u8
            } else {
                a
            }
        }),
{
    let a = match amount {
        Some(a) => a,
        None => 1,
    };
    if a < 1 {
        1
    } else if a > 20 {
        20
    } else {
        a
    }
}

/// The views of a list of strings.
pub open spec fn views_of(v: Seq<String>) -> Seq<Seq<char>> {
    Seq::new(v.len(), |i: int| v[i]@)
}

/// The categories offered while the user types `partial`: all of them when
/// nothing is typed yet, otherwise those that begin with it, in order.
pub open spec fn matching_spec(categories: Seq<Seq<char>>, partial: Seq<char>) -> Seq<Seq<char>> {
    categories.filter(|c: Seq<char>| partial.len() == 0 || starts_with(c, partial))
}

/// The categories offered while the user types `partial`.
pub fn matching_categories(categories: &[String], partial: &str) -> (r: Vec<String>)
    ensures
        views_of(r@) == matching_spec(views_of(categories@), partial@),
{
    let ghost pred = |c: Seq<char>| partial@.len() == 0 || starts_with(c, partial@);
    let mut out: Vec<String> = Vec::new();
    let mut i: usize = 0;
    reveal(Seq::filter);
    assert(views_of(categories@).take(0).filter(pred) =~= Seq::<Seq<char>>::empty());
    while i < categories.len()
        invariant
            i <= categories@.len(),
            pred == (|c: Seq<char>| partial@.len() == 0 || starts_with(c, partial@)),
            views_of(out@) == views_of(categories@).take(i as int).filter(pred),
        decreases categories.len() - i,
    {
        let c = &categories[i];
        let ghost s = views_of(categories@).take(i + 1);
        assert(s.drop_last() =~= views_of(categories@).take(i as int));
        assert(s.last() == c@);
        proof {
            reveal(Seq::filter);
        }
        let keep = partial.is_empty() || str_starts_with(c.as_str(), partial);
        assert(keep == pred(c@));
        if keep {
            out.push(c.clone());
        }
        assert(views_of(out@) =~= s.filter(pred));
        i = i + 1;
    }
    assert(views_of(categories@).take(i as int) =~= views_of(categories@));
    out
}

/// Whether `name` is one of the categories.
pub fn is_category(categories: &[String], name: &str) -> (r: bool)
    ensures
        r == views_of(categories@).contains(name@),
{
    let mut i: usize = 0;
    while i < categories.len()
        invariant
            i <= categories@.len(),
            forall|j: int| 0 <= j < i ==> categories@[j]@ != name@,
        decreases categories.len() - i,
    {
        if str_eq(categories[i].as_str(), name) {
            assert(views_of(categories@)[i as int] == name@);
            return true;
        }
        i = i + 1;
    }
    assert(!views_of(categories@).contains(name@)) by {
        if views_of(categories@).contains(name@) {
            let j = choose|j: int| 0 <= j < categories@.len() && views_of(categories@)[j] == name@;
            assert(categories@[j]@ == name@);
        }
    }
    false
}

/// The answer to an unknown category: the category, then all categories
/// separated by commas.
pub open spec fn invalid_category_text_spec(category: Seq<char>, categories: Seq<Seq<char>>) -> Seq<char> {
    category + " is not a valid category, the available categories are:\n"@ + join_with(categories, ", "@)
}

/// The answer to an unknown category.
pub fn invalid_category_text(category: &str, categories: &[String]) -> (r: String)
    ensures
        r@ == invalid_category_text_spec(category@, views_of(categories@)),
{
    let mut v: Vec<char> = Vec::new();
    extend_str(&mut v, category);
    extend_str(&mut v, " is not a valid category, the available categories are:\n");
    let ghost head = v@;
    let mut i: usize = 0;
    assert(views_of(categories@).take(0) =~= Seq::<Seq<char>>::empty());
    while i < categories.len()
        invariant
            i <= categories@.len(),
            v@ == head + join_with(views_of(categories@).take(i as int), ", "@),
        decreases categories.len() - i,
    {
        let ghost s = views_of(categories@).take(i + 1);
        assert(s.drop_last() =~= views_of(categories@).take(i as int));
        assert(s.last() == categories@[i as int]@);
        let ghost before = v@;
        if i > 0 {
            extend_str(&mut v, ", ");
        }
        extend_str(&mut v, categories[i].as_str());
        assert(v@ =~= head + join_with(s, ", "@));
        i = i + 1;
    }
    assert(views_of(categories@).take(i as int) =~= views_of(categories@));
    from_chars(v.as_slice())
}

/// The url names of nekos.best's categories, in the crate's order.
pub open spec fn neko_category_names() -> Seq<Seq<char>> {
    seq![
        "angry"@, "baka"@, "bite"@, "bleh"@, "blowkiss"@, "blush"@, "bonk"@, "bored"@,
        "carry"@, "clap"@, "confused"@, "cry"@, "cuddle"@, "dance"@, "facepalm"@, "feed"@,
        "handhold"@, "handshake"@, "happy"@, "highfive"@, "hug"@, "husbando"@, "kabedon"@,
        "kick"@, "kiss"@, "kitsune"@, "lappillow"@, "laugh"@, "lurk"@, "neko"@, "nod"@, "nom"@,
        "nope"@, "nya"@, "pat"@, "peck"@, "poke"@, "pout"@, "punch"@, "run"@, "salute"@,
        "shake"@, "shocked"@, "shoot"@, "shrug"@, "sip"@, "slap"@, "sleep"@, "smile"@, "smug"@,
        "spin"@, "stare"@, "tableflip"@, "teehee"@, "think"@, "thumbsup"@, "tickle"@, "wag"@,
        "waifu"@, "wave"@, "wink"@, "yawn"@, "yeet"@,
    ]
}

/// nekos.best's `Category::ALL_VARIANTS`, each by `to_url_name`. Claimed:
/// the names are `neko_category_names`, the list that the crate's
/// `categories!` invocation writes out.
#[verifier::external_body]
pub(crate) fn neko_categories() -> (r: Vec<String>)
    ensures
        views_of(r@) == neko_category_names(),
{
    nekosbest::Category::ALL_VARIANTS.iter().map(|c| c.to_url_name().to_string()).collect()
}

/// The categories offered while the user types `partial`, among nekos.best's
/// categories.
pub fn autocomplete_category(partial: &str) -> (r: Vec<String>)
    ensures
        views_of(r@) == matching_spec(neko_category_names(), partial@),
{
    let categories = neko_categories();
    matching_categories(categories.as_slice(), partial)
}

} // verus!
