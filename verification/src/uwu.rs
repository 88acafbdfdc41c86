//! The "uwu" text transformation: every word of a lowercased text gets its
//! `l`/`r` turned to `w`, `th` to `f`, `d` to `t`, and `n` before a vowel to
//! `ny`; some words gain a stutter in front or an emoticon behind.
use crate::rng::{roll_below, roll_between, roll_ratio};
use crate::text::{
    extend_chars, extend_str, from_chars, join_chars, join_with, lowercase, lowercase_of,
    replace_all, replace_all_chars, split_chars, split_on, starts_with, starts_with_chars, to_chars,
    views, encode_utf8_len, utf8_len_exceeds,
};
use vstd::prelude::*;

verus! {

/// How many emoticons a word can end with.
pub const EMOJIS_SIZE: usize = 15;

/// The emoticon number `i` (for `i < EMOJIS_SIZE`).
pub open spec fn emoji_spec(i: nat) -> Seq<char> {
    if i == 0 {
        " OwO"@
    } else if i == 1 {
        " UwU"@
    } else if i == 2 {
        " >w<"@
    } else if i == 3 {
        " :3"@
    } else if i == 4 {
        " o///o"@
    } else if i == 5 {
        " >///<"@
    } else if i == 6 {
        " nyaa\\~\\~"@
    } else if i == 7 {
        " >\\_<"@
    } else if i == 8 {
        " uguu..,"@
    } else if i == 9 {
        " -.-"@
    } else if i == 10 {
        " ^w^"@
    } else if i == 11 {
        " ^-^"@
    } else if i == 12 {
        " omo"@
    } else if i == 13 {
        "〜☆"@
    } else {
        "~"@
    }
}

/// The emoticon number `i`.
pub fn emoji(i: usize) -> (r: &'static str)
    requires
        i < EMOJIS_SIZE,
    ensures
        r@ == emoji_spec(i as nat),
{
    if i == 0 {
        " OwO"
    } else if i == 1 {
        " UwU"
    } else if i == 2 {
        " >w<"
    } else if i == 3 {
        " :3"
    } else if i == 4 {
        " o///o"
    } else if i == 5 {
        " >///<"
    } else if i == 6 {
        " nyaa\\~\\~"
    } else if i == 7 {
        " >\\_<"
    } else if i == 8 {
        " uguu..,"
    } else if i == 9 {
        " -.-"
    } else if i == 10 {
        " ^w^"
    } else if i == 11 {
        " ^-^"
    } else if i == 12 {
        " omo"
    } else if i == 13 {
        "〜☆"
    } else {
        "~"
    }
}

/// A randomly chosen emoticon.
pub fn random_emoji() -> (r: String)
    ensures
        exists|i: nat| i < EMOJIS_SIZE && r@ == emoji_spec(i),
{
    let idx = roll_below(EMOJIS_SIZE);
    let e = emoji(idx);
    let v = to_chars(e);
    from_chars(v.as_slice())
}

/// Whether a character is alphanumeric, as `char::is_alphanumeric` decides
/// (Unicode's Alphabetic or Numeric property).
pub uninterp spec fn is_alphanumeric_of(c: char) -> bool;

/// `char::is_alphanumeric`. Claimed: the result is `is_alphanumeric_of(c)`;
/// nothing more is stated of the Unicode tables.
#[verifier::external_body]
pub(crate) fn is_alphanumeric(c: char) -> (r: bool)
    ensures
        r == is_alphanumeric_of(c),
{
    c.is_alphanumeric()
}

/// The vowel number `k` of `a e i o u`.
pub open spec fn vowel(k: nat) -> char {
    seq!['a', 'e', 'i', 'o', 'u'][k as int]
}

/// `n` followed by each of the first `k` vowels becomes `ny` and the vowel,
/// one vowel after the other.
pub open spec fn ny_pass(s: Seq<char>, k: nat) -> Seq<char>
    decreases k,
{
    if k == 0 {
        s
    } else {
        let v = vowel((k - 1) as nat);
        replace_all(ny_pass(s, (k - 1) as nat), seq!['n', v], seq!['n', 'y', v])
    }
}

/// The word with its letters replaced: `l` and `r` by `w`, then `th` by `f`,
/// then `d` by `t`, then `n` before each vowel by `ny`.
pub open spec fn uwu_core(w: Seq<char>) -> Seq<char> {
    let a = w.map_values(|c: char| if c == 'l' || c == 'r' { 'w' } else { c });
    let b = replace_all(a, seq!['t', 'h'], seq!['f']);
    let c = b.map_values(|x: char| if x == 'd' { 't' } else { x });
    ny_pass(c, 5)
}

/// `c-` repeated `k` times.
pub open spec fn stutter(c: char, k: nat) -> Seq<char>
    decreases k,
{
    if k == 0 {
        Seq::<char>::empty()
    } else {
        stutter(c, (k - 1) as nat) + seq![c, '-']
    }
}

/// A word may stutter when its UTF-8 form is longer than two bytes and it
/// begins with an alphanumeric character.
pub open spec fn may_stutter(out: Seq<char>) -> bool {
    out.len() > 0 && encode_utf8_len(out) > 2 && is_alphanumeric_of(out[0])
}

/// The transformed word `out` with `stutters` stutters in front (where the
/// word may stutter) and the emoticon `emoji` behind (if any).
pub open spec fn decorated(out: Seq<char>, emoji: Option<usize>, stutters: nat) -> Seq<char> {
    let start = if stutters > 0 && may_stutter(out) {
        stutter(out[0], stutters)
    } else {
        Seq::<char>::empty()
    };
    let end = match emoji {
        Some(i) => emoji_spec(i as nat),
        None => Seq::<char>::empty(),
    };
    start + out + end
}

/// One word after the transformation, given the random choices: links
/// (words that begin with `http`) and empty words stay as they are.
pub open spec fn uwu_word_spec(w: Seq<char>, emoji: Option<usize>, stutters: nat) -> Seq<char> {
    if starts_with(w, "http"@) || w.len() == 0 {
        w
    } else {
        decorated(uwu_core(w), emoji, stutters)
    }
}

/// The random choices made for one word: the emoticon added behind it, if
/// any, and how many stutters go in front of it (none when 0).
#[derive(Clone, Copy, Debug)]
pub struct WordRoll {
    pub emoji: Option<usize>,
    pub stutters: usize,
}

/// The choices lie in their ranges.
pub open spec fn valid_roll(r: WordRoll) -> bool {
    &&& r.emoji matches Some(i) ==> i < EMOJIS_SIZE
    &&& r.stutters <= 3
}

/// The choices made for word number `k` (none when `rolls` is shorter).
pub open spec fn roll_at(rolls: Seq<WordRoll>, k: int) -> WordRoll {
    if 0 <= k < rolls.len() {
        rolls[k]
    } else {
        WordRoll { emoji: None, stutters: 0 }
    }
}

/// The whole (already lowercased) text transformed word by word, words being
/// the pieces between single spaces.
pub open spec fn uwu_text(low: Seq<char>, rolls: Seq<WordRoll>) -> Seq<char> {
    let words = split_on(low, ' ');
    join_with(
        Seq::new(
            words.len(),
            |k: int| uwu_word_spec(words[k], roll_at(rolls, k).emoji, roll_at(rolls, k).stutters as nat),
        ),
        seq![' '],
    )
}

/// A sequence of character replacements that leaves other characters alone.
pub fn replace_char(s: &[char], from: char, to: char) -> (r: Vec<char>)
    ensures
        r@ == s@.map_values(|c: char| if c == from { to } else { c }),
{
    let mut out: Vec<char> = Vec::new();
    let mut i: usize = 0;
    while i < s.len()
        invariant
            i <= s.len(),
            out@ == s@.take(i as int).map_values(|c: char| if c == from { to } else { c }),
        decreases s.len() - i,
    {
        let c = s[i];
        if c == from {
            out.push(to);
        } else {
            out.push(c);
        }
        assert(s@.take(i + 1).map_values(|c: char| if c == from { to } else { c }) =~= s@.take(
            i as int,
        ).map_values(|c: char| if c == from { to } else { c }).push(if c == from { to } else { c }));
        i = i + 1;
    }
    assert(s@.take(s.len() as int) =~= s@);
    out
}

/// Replacing a non-empty text's patterns by non-empty text keeps it non-empty.
proof fn lemma_replace_nonempty(s: Seq<char>, pat: Seq<char>, rep: Seq<char>)
    requires
        s.len() > 0,
        rep.len() > 0,
    ensures
        replace_all(s, pat, rep).len() > 0,
{
}

/// The `ny` pass keeps a non-empty word non-empty.
proof fn lemma_ny_pass_nonempty(s: Seq<char>, k: nat)
    requires
        s.len() > 0,
    ensures
        ny_pass(s, k).len() > 0,
    decreases k,
{
    if k > 0 {
        lemma_ny_pass_nonempty(s, (k - 1) as nat);
        lemma_replace_nonempty(
            ny_pass(s, (k - 1) as nat),
            seq!['n', vowel((k - 1) as nat)],
            seq!['n', 'y', vowel((k - 1) as nat)],
        );
    }
}

/// The letter replacements of a word (no random part).
pub fn uwu_core_chars(w: &[char]) -> (r: Vec<char>)
    ensures
        r@ == uwu_core(w@),
        w@.len() > 0 ==> r@.len() > 0,
{
    let a1 = replace_char(w, 'l', 'w');
    let a = replace_char(a1.as_slice(), 'r', 'w');
    assert(a@ =~= w@.map_values(|c: char| if c == 'l' || c == 'r' { 'w' } else { c }));
    let mut th: Vec<char> = Vec::new();
    th.push('t');
    th.push('h');
    let mut f: Vec<char> = Vec::new();
    f.push('f');
    assert(th@ =~= seq!['t', 'h']);
    assert(f@ =~= seq!['f']);
    let b = replace_all_chars(a.as_slice(), th.as_slice(), f.as_slice());
    let mut out = replace_char(b.as_slice(), 'd', 't');
    let ghost c = out@;
    proof {
        if w@.len() > 0 {
            lemma_replace_nonempty(a@, seq!['t', 'h'], seq!['f']);
        }
    }
    let mut vowels: Vec<char> = Vec::new();
    vowels.push('a');
    vowels.push('e');
    vowels.push('i');
    vowels.push('o');
    vowels.push('u');
    assert(vowels@ =~= seq!['a', 'e', 'i', 'o', 'u']);
    let mut k: usize = 0;
    while k < 5
        invariant
            k <= 5,
            vowels@ == seq!['a', 'e', 'i', 'o', 'u'],
            out@ == ny_pass(c, k as nat),
            w@.len() > 0 ==> c.len() > 0,
        decreases 5 - k,
    {
        let v = vowels[k];
        let mut pat: Vec<char> = Vec::new();
        pat.push('n');
        pat.push(v);
        let mut rep: Vec<char> = Vec::new();
        rep.push('n');
        rep.push('y');
        rep.push(v);
        assert(pat@ =~= seq!['n', vowel(k as nat)]);
        assert(rep@ =~= seq!['n', 'y', vowel(k as nat)]);
        out = replace_all_chars(out.as_slice(), pat.as_slice(), rep.as_slice());
        k = k + 1;
    }
    proof {
        if w@.len() > 0 {
            lemma_ny_pass_nonempty(c, 5);
        }
    }
    out
}

/// Appends `c-` `k` times.
fn push_stutter(out: &mut Vec<char>, c: char, k: usize)
    ensures
        final(out)@ == old(out)@ + stutter(c, k as nat),
{
    let ghost start = out@;
    let mut j: usize = 0;
    while j < k
        invariant
            j <= k,
            out@ == start + stutter(c, j as nat),
        decreases k - j,
    {
        out.push(c);
        out.push('-');
        assert(stutter(c, (j + 1) as nat) == stutter(c, j as nat) + seq![c, '-']);
        assert(out@ =~= start + stutter(c, (j + 1) as nat));
        j = j + 1;
    }
}

/// The transformed word with its stutters and emoticon added.
fn decorate(out: &[char], emoji_choice: Option<usize>, stutters: usize) -> (r: Vec<char>)
    requires
        out@.len() > 0,
        emoji_choice matches Some(i) ==> i < EMOJIS_SIZE,
    ensures
        r@ == decorated(out@, emoji_choice, stutters as nat),
{
    let mut r: Vec<char> = Vec::new();
    if stutters > 0 && utf8_len_exceeds(out, 2) && is_alphanumeric(out[0]) {
        push_stutter(&mut r, out[0], stutters);
    }
    extend_chars(&mut r, out);
    match emoji_choice {
        Some(i) => {
            extend_str(&mut r, emoji(i));
        },
        None => {},
    }
    assert(r@ =~= decorated(out@, emoji_choice, stutters as nat));
    r
}

/// Whether a word is left untouched: it is empty or begins with `http`.
fn is_kept(w: &[char]) -> (r: bool)
    ensures
        r == (starts_with(w@, "http"@) || w@.len() == 0),
{
    let http = to_chars("http");
    w.len() == 0 || starts_with_chars(w, http.as_slice())
}

/// One word transformed with the given random choices.
pub fn uwu_word_with(w: &[char], roll: WordRoll) -> (r: Vec<char>)
    requires
        valid_roll(roll),
    ensures
        r@ == uwu_word_spec(w@, roll.emoji, roll.stutters as nat),
{
    if is_kept(w) {
        return vstd::slice::slice_to_vec(w);
    }
    let core = uwu_core_chars(w);
    decorate(core.as_slice(), roll.emoji, roll.stutters)
}

/// One word transformed, drawing the random choices as the bot does: an
/// emoticon with chance 1/8, and, when the word may stutter, one to three
/// stutters with chance 1/3.
fn uwu_word(w: &[char]) -> (r: (Vec<char>, Ghost<WordRoll>))
    ensures
        valid_roll(r.1@),
        r.0@ == uwu_word_spec(w@, r.1@.emoji, r.1@.stutters as nat),
{
    if is_kept(w) {
        return (vstd::slice::slice_to_vec(w), Ghost(WordRoll { emoji: None, stutters: 0 }));
    }
    let core = uwu_core_chars(w);
    let emoji_choice = if roll_ratio(1, 8) {
        Some(roll_below(EMOJIS_SIZE))
    } else {
        None
    };
    let stutters = if utf8_len_exceeds(core.as_slice(), 2) && is_alphanumeric(core[0]) && roll_ratio(
        1,
        3,
    ) {
        roll_between(1, 3)
    } else {
        0
    };
    let roll = WordRoll { emoji: emoji_choice, stutters };
    (decorate(core.as_slice(), emoji_choice, stutters), Ghost(roll))
}

/// The words of a text with their transformed forms, as far as `k`.
spec fn transformed(words: Seq<Seq<char>>, rolls: Seq<WordRoll>) -> Seq<Seq<char>> {
    Seq::new(
        words.len(),
        |k: int| uwu_word_spec(words[k], roll_at(rolls, k).emoji, roll_at(rolls, k).stutters as nat),
    )
}

/// The whole lowercased text transformed with the given choices, word `k`
/// using `rolls[k]` (words without an entry get none).
pub fn uwuify_with(low: &str, rolls: &[WordRoll]) -> (r: String)
    requires
        forall|k: int| 0 <= k < rolls@.len() ==> valid_roll(#[trigger] rolls@[k]),
    ensures
        r@ == uwu_text(low@, rolls@),
{
    let cs = to_chars(low);
    let words = split_chars(cs.as_slice(), ' ');
    let ghost ws = split_on(low@, ' ');
    let mut outs: Vec<Vec<char>> = Vec::new();
    let mut k: usize = 0;
    while k < words.len()
        invariant
            k <= words@.len(),
            cs@ == low@,
            words@.len() == ws.len(),
            forall|j: int| 0 <= j < words@.len() ==> #[trigger] words@[j]@ == ws[j],
            forall|j: int| 0 <= j < rolls@.len() ==> valid_roll(#[trigger] rolls@[j]),
            outs@.len() == k,
            forall|j: int| 0 <= j < k ==> #[trigger] outs@[j]@ == transformed(ws, rolls@)[j],
        decreases words.len() - k,
    {
        let roll = if k < rolls.len() {
            rolls[k]
        } else {
            WordRoll { emoji: None, stutters: 0 }
        };
        assert(roll == roll_at(rolls@, k as int));
        let o = uwu_word_with(words[k].as_slice(), roll);
        outs.push(o);
        k = k + 1;
    }
    let mut space: Vec<char> = Vec::new();
    space.push(' ');
    assert(space@ =~= seq![' ']);
    let joined = join_chars(outs.as_slice(), space.as_slice());
    assert(views(outs@) =~= transformed(ws, rolls@));
    from_chars(joined.as_slice())
}

/// The text lowercased and transformed word by word, with fresh random
/// choices for every word.
pub fn uwuify(text: String) -> (r: String)
    ensures
        exists|rolls: Seq<WordRoll>|
            (forall|k: int| 0 <= k < rolls.len() ==> valid_roll(#[trigger] rolls[k])) && r@ == uwu_text(
                lowercase_of(text@),
                rolls,
            ),
{
    let low = lowercase(text.as_str());
    let cs = to_chars(low.as_str());
    let words = split_chars(cs.as_slice(), ' ');
    let ghost ws = split_on(low@, ' ');
    let ghost mut rolls: Seq<WordRoll> = Seq::empty();
    let mut outs: Vec<Vec<char>> = Vec::new();
    let mut k: usize = 0;
    while k < words.len()
        invariant
            k <= words@.len(),
            cs@ == low@,
            words@.len() == ws.len(),
            forall|j: int| 0 <= j < words@.len() ==> #[trigger] words@[j]@ == ws[j],
            rolls.len() == k,
            forall|j: int| 0 <= j < rolls.len() ==> valid_roll(#[trigger] rolls[j]),
            outs@.len() == k,
            forall|j: int| 0 <= j < k ==> #[trigger] outs@[j]@ == transformed(ws, rolls)[j],
        decreases words.len() - k,
    {
        let (o, Ghost(roll)) = uwu_word(words[k].as_slice());
        proof {
            rolls = rolls.push(roll);
        }
        outs.push(o);
        assert forall|j: int| 0 <= j < k + 1 implies #[trigger] outs@[j]@ == transformed(ws, rolls)[j] by {
            assert(roll_at(rolls, j) == rolls[j]);
        }
        k = k + 1;
    }
    let mut space: Vec<char> = Vec::new();
    space.push(' ');
    assert(space@ =~= seq![' ']);
    let joined = join_chars(outs.as_slice(), space.as_slice());
    assert(views(outs@) =~= transformed(ws, rolls));
    let r = from_chars(joined.as_slice());
    assert(r@ == uwu_text(lowercase_of(text@), rolls));
    r
}


/// No `n` in `s` is directly followed by `u`.
pub open spec fn no_n_before(s: Seq<char>, u: char) -> bool {
    forall|i: int| 0 <= i && i + 1 < s.len() && #[trigger] s[i] == 'n' ==> s[i + 1] != u
}

/// Replacing never empties a text, and its first character stays when the
/// pattern and the replacement begin with the same character.
proof fn lemma_replace_first(s: Seq<char>, pat: Seq<char>, rep: Seq<char>)
    requires
        s.len() > 0,
        pat.len() > 0,
        rep.len() > 0,
        rep[0] == pat[0],
    ensures
        replace_all(s, pat, rep).len() > 0,
        replace_all(s, pat, rep)[0] == s[0],
{
    if s.len() >= pat.len() && s.take(pat.len() as int) == pat {
        assert(s[0] == s.take(pat.len() as int)[0]);
    }
}

/// The `n` + vowel pass for one vowel `v` leaves no `n` before `v`, and
/// creates no `n` before any other character than `y`.
proof fn lemma_ny_step(s: Seq<char>, v: char, u: char)
    requires
        v != 'n',
        v != 'y',
        u == v || (u != 'y' && no_n_before(s, u)),
    ensures
        no_n_before(replace_all(s, seq!['n', v], seq!['n', 'y', v]), u),
    decreases s.len(),
{
    let pat = seq!['n', v];
    let rep = seq!['n', 'y', v];
    let t = replace_all(s, pat, rep);
    if s.len() < 2 {
    } else if s.take(2) == pat {
        let rest = s.skip(2);
        assert(u != v ==> no_n_before(rest, u)) by {
            if u != v {
                assert forall|i: int| 0 <= i && i + 1 < rest.len() && #[trigger] rest[i] == 'n' implies rest[i + 1] != u by {
                    assert(s[i + 2] == rest[i]);
                    assert(s[i + 3] == rest[i + 1]);
                }
            }
        }
        lemma_ny_step(rest, v, u);
        let tr = replace_all(rest, pat, rep);
        assert(t == rep + tr);
        assert forall|i: int| 0 <= i && i + 1 < t.len() && #[trigger] t[i] == 'n' implies t[i + 1] != u by {
            if i >= 3 {
                assert(t[i] == tr[i - 3]);
                assert(t[i + 1] == tr[i - 2]);
            }
        }
    } else {
        let rest = s.skip(1);
        assert(u != v ==> no_n_before(rest, u)) by {
            if u != v {
                assert forall|i: int| 0 <= i && i + 1 < rest.len() && #[trigger] rest[i] == 'n' implies rest[i + 1] != u by {
                    assert(s[i + 1] == rest[i]);
                    assert(s[i + 2] == rest[i + 1]);
                }
            }
        }
        lemma_ny_step(rest, v, u);
        let tr = replace_all(rest, pat, rep);
        lemma_replace_first(rest, pat, rep);
        assert(t == seq![s[0]] + tr);
        assert forall|i: int| 0 <= i && i + 1 < t.len() && #[trigger] t[i] == 'n' implies t[i + 1] != u by {
            if i == 0 {
                assert(t[1] == tr[0]);
                assert(tr[0] == s[1]);
                if u == v {
                    if s[1] == v {
                        assert(s.take(2) =~= pat);
                    }
                } else {
                    assert(s[0] == 'n');
                }
            } else {
                assert(t[i] == tr[i - 1]);
                assert(t[i + 1] == tr[i]);
            }
        }
    }
}

/// After the pass over the first `k` vowels, none of them follows an `n`.
proof fn lemma_ny_pass(s: Seq<char>, k: nat, j: nat)
    requires
        j < k <= 5,
    ensures
        no_n_before(ny_pass(s, k), vowel(j)),
    decreases k,
{
    let v = vowel((k - 1) as nat);
    assert(vowel(0) == 'a' && vowel(1) == 'e' && vowel(2) == 'i' && vowel(3) == 'o' && vowel(4) == 'u');
    if j == k - 1 {
        lemma_ny_step(ny_pass(s, (k - 1) as nat), v, vowel(j));
    } else {
        lemma_ny_pass(s, (k - 1) as nat, j);
        lemma_ny_step(ny_pass(s, (k - 1) as nat), v, vowel(j));
    }
}

/// No `n` of a transformed word is directly followed by a vowel: every
/// `n` + `a`, `e`, `i`, `o` or `u` of the word has become `ny` + the vowel.
pub proof fn law_no_n_before_vowel(w: Seq<char>)
    ensures
        forall|i: int|
            0 <= i && i + 1 < uwu_core(w).len() && #[trigger] uwu_core(w)[i] == 'n' ==> {
                let next = uwu_core(w)[i + 1];
                next != 'a' && next != 'e' && next != 'i' && next != 'o' && next != 'u'
            },
{
    let a = w.map_values(|c: char| if c == 'l' || c == 'r' { 'w' } else { c });
    let b = replace_all(a, seq!['t', 'h'], seq!['f']);
    let c = b.map_values(|x: char| if x == 'd' { 't' } else { x });
    assert(vowel(0) == 'a' && vowel(1) == 'e' && vowel(2) == 'i' && vowel(3) == 'o' && vowel(4) == 'u');
    lemma_ny_pass(c, 5, 0);
    lemma_ny_pass(c, 5, 1);
    lemma_ny_pass(c, 5, 2);
    lemma_ny_pass(c, 5, 3);
    lemma_ny_pass(c, 5, 4);
}

/// Links (words that begin with `http`) come out of the transformation
/// unchanged, whatever the random choices.
pub proof fn law_links_unchanged(w: Seq<char>, emoji: Option<usize>, stutters: nat)
    requires
        starts_with(w, "http"@),
    ensures
        uwu_word_spec(w, emoji, stutters) == w,
{
}

} // verus!
