//! The scan command: rebuild the board from a guild's message history.
use crate::text::str_eq;
use vstd::prelude::*;

verus! {

/// Whether `user` may run the scan (only the owner).
pub fn can_scan(user: u64) -> (r: bool)
    ensures
        r == (user == 852877128844050432u64),
{
    user == 852877128844050432u64
}

/// Where the next page of history starts: before the oldest message of the
/// page just fetched (pages come newest first); `None` ends the scan.
pub fn next_cursor(page: &[u64]) -> (r: Option<u64>)
    ensures
        r == if page@.len() == 0 {
            None::<u64>
        } else {
            Some(page@.last())
        },
{
    if page.len() == 0 {
        None
    } else {
        Some(page[page.len() - 1])
    }
}

/// All pages one after the other.
pub open spec fn flatten<T>(pages: Seq<Seq<T>>) -> Seq<T>
    decreases pages.len(),
{
    if pages.len() == 0 {
        Seq::<T>::empty()
    } else {
        flatten(pages.drop_last()) + pages.last()
    }
}

/// The pages' views.
pub open spec fn page_views<T>(pages: Seq<Vec<T>>) -> Seq<Seq<T>> {
    Seq::new(pages.len(), |i: int| pages[i]@)
}

/// Flattening a page followed by more pages.
proof fn lemma_flatten_cons<T>(p: Seq<T>, rest: Seq<Seq<T>>)
    ensures
        flatten(seq![p] + rest) == p + flatten(rest),
    decreases rest.len(),
{
    if rest.len() == 0 {
        assert(seq![p] + rest =~= seq![p]);
        assert(seq![p].drop_last() =~= Seq::<Seq<T>>::empty());
        assert(p + Seq::<T>::empty() =~= p);
        assert(Seq::<T>::empty() + p =~= p);
        assert(flatten(seq![p]) == flatten(seq![p].drop_last()) + p);
    } else {
        assert((seq![p] + rest).last() == rest.last());
        lemma_flatten_cons(p, rest.drop_last());
        assert((seq![p] + rest).drop_last() =~= seq![p] + rest.drop_last());
        assert(p + flatten(rest.drop_last()) + rest.last() =~= p + (flatten(rest.drop_last()) + rest.last()));
    }
}

/// The messages of all pages, oldest first: pages are fetched newest first,
/// and each page lists its messages newest first.
pub fn chronological<T>(pages: Vec<Vec<T>>) -> (r: Vec<T>)
    ensures
        r@ == flatten(page_views(pages@)).reverse(),
{
    let ghost all = page_views(pages@);
    let mut pages = pages;
    let mut out: Vec<T> = Vec::new();
    assert(all.skip(all.len() as int) =~= Seq::<Seq<T>>::empty());
    assert(page_views(pages@) + all.skip(pages@.len() as int) =~= all);
    while pages.len() > 0
        invariant
            pages@.len() <= all.len(),
            forall|i: int| 0 <= i < pages@.len() ==> #[trigger] pages@[i]@ == all[i],
            out@ == flatten(all.skip(pages@.len() as int)).reverse(),
        decreases pages@.len(),
    {
        let ghost n = pages@.len();
        let mut page = pages.pop().unwrap();
        let ghost p = page@;
        assert(all[n - 1] == p);
        let ghost base = out@;
        assert(p.skip(p.len() as int) =~= Seq::<T>::empty());
        assert(page@ =~= p.take(page@.len() as int));
        while page.len() > 0
            invariant
                p.len() >= page@.len(),
                page@ == p.take(page@.len() as int),
                out@ == base + p.skip(page@.len() as int).reverse(),
            decreases page@.len(),
        {
            let ghost m = page@.len();
            let x = page.pop().unwrap();
            assert(x == p[m - 1]);
            assert(p.skip(m - 1) =~= seq![x] + p.skip(m as int));
            out.push(x);
            assert(out@ =~= base + p.skip(page@.len() as int).reverse());
            assert(page@ =~= p.take(page@.len() as int));
        }
        assert(p.skip(0) =~= p);
        proof {
            let rest = all.skip(n as int);
            assert(all.skip(n - 1) =~= seq![p] + rest);
            lemma_flatten_cons(p, rest);
            assert((p + flatten(rest)).reverse() =~= flatten(rest).reverse() + p.reverse());
        }
    }
    assert(all.skip(0) =~= all);
    out
}

/// Whether a reaction is the moyai.
pub fn is_moyai(emoji: Option<&str>) -> (r: bool)
    ensures
        r == match emoji {
            Some(e) => e@ == "🗿"@,
            None => false,
        },
{
    match emoji {
        Some(e) => str_eq(e, crate::board::moyai()),
        None => false,
    }
}

/// The first of a message's reactions that is the moyai, if any.
pub fn first_moyai(reactions: &[Option<String>]) -> (r: Option<usize>)
    ensures
        match r {
            Some(i) => i < reactions@.len() && (reactions@[i as int] matches Some(e) && e@ == "🗿"@)
                && forall|j: int| 0 <= j < i ==> !(#[trigger] reactions@[j] matches Some(e) && e@ == "🗿"@),
            None => forall|j: int| 0 <= j < reactions@.len() ==> !(#[trigger] reactions@[j] matches Some(e) && e@ == "🗿"@),
        },
{
    let mut i: usize = 0;
    while i < reactions.len()
        invariant
            i <= reactions@.len(),
            forall|j: int| 0 <= j < i ==> !(#[trigger] reactions@[j] matches Some(e) && e@ == "🗿"@),
        decreases reactions.len() - i,
    {
        let e = match &reactions[i] {
            Some(s) => Some(s.as_str()),
            None => None,
        };
        if is_moyai(e) {
            return Some(i);
        }
        i = i + 1;
    }
    None
}

} // verus!
