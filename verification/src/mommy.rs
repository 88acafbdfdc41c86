//! The bot's "mommy" persona: canned praise, scolding and begging lines with
//! placeholders filled in, and the list of users who have to beg before the
//! bot runs their next command.
use crate::rng::{choose_from, roll_ratio};
use crate::text::{
    extend_chars, extend_str, from_chars, lowercase, lowercase_of, replace_all, replace_all_chars,
    split_chars, split_on, starts_with, str_starts_with, to_chars,
};
use vstd::prelude::*;

verus! {

// ---------------------------------------------------------------------------
// Placeholders
// ---------------------------------------------------------------------------

/// How many placeholders a response line can hold.
pub const PLACEHOLDERS: usize = 6;

/// Placeholder number `k`, as it is written in a response line.
pub open spec fn placeholder_spec(k: nat) -> Seq<char> {
    if k == 0 {
        "{role}"@
    } else if k == 1 {
        "{pronoun}"@
    } else if k == 2 {
        "{affectionate_term}"@
    } else if k == 3 {
        "{denigrating_term}"@
    } else if k == 4 {
        "{part}"@
    } else {
        "~"@
    }
}

/// The words that may stand for placeholder number `k`.
pub open spec fn options_spec(k: nat) -> Seq<Seq<char>> {
    if k == 0 {
        seq!["mommy"@]
    } else if k == 1 {
        seq!["her"@]
    } else if k == 2 {
        seq!["girl"@]
    } else if k == 3 {
        seq!["slut"@, "toy"@, "pet"@, "pervert"@, "whore"@]
    } else if k == 4 {
        seq!["milk"@]
    } else {
        seq!["\\~"@]
    }
}

/// Placeholder number `k`.
pub fn placeholder(k: usize) -> (r: &'static str)
    requires
        k < PLACEHOLDERS,
    ensures
        r@ == placeholder_spec(k as nat),
        r@.len() > 0,
{
    proof {
        reveal_strlit("{role}");
        reveal_strlit("{pronoun}");
        reveal_strlit("{affectionate_term}");
        reveal_strlit("{denigrating_term}");
        reveal_strlit("{part}");
        reveal_strlit("~");
    }
    if k == 0 {
        "{role}"
    } else if k == 1 {
        "{pronoun}"
    } else if k == 2 {
        "{affectionate_term}"
    } else if k == 3 {
        "{denigrating_term}"
    } else if k == 4 {
        "{part}"
    } else {
        "~"
    }
}

/// The words that may stand for placeholder number `k`.
pub fn options(k: usize) -> (r: Vec<&'static str>)
    requires
        k < PLACEHOLDERS,
    ensures
        r@.len() == options_spec(k as nat).len(),
        forall|i: int| 0 <= i < r@.len() ==> (#[trigger] r@[i])@ == options_spec(k as nat)[i],
{
    let mut r: Vec<&'static str> = Vec::new();
    if k == 0 {
        r.push("mommy");
    } else if k == 1 {
        r.push("her");
    } else if k == 2 {
        r.push("girl");
    } else if k == 3 {
        r.push("slut");
        r.push("toy");
        r.push("pet");
        r.push("pervert");
        r.push("whore");
    } else if k == 4 {
        r.push("milk");
    } else {
        r.push("\\~");
    }
    r
}

/// The line after the first `k` placeholders have been replaced, each by the
/// chosen word `chosen[i]` at all of its occurrences.
pub open spec fn filled(s: Seq<char>, chosen: Seq<Seq<char>>, k: nat) -> Seq<char>
    decreases k,
{
    if k == 0 {
        s
    } else {
        replace_all(filled(s, chosen, (k - 1) as nat), placeholder_spec((k - 1) as nat), chosen[k - 1])
    }
}

/// One word is chosen for every placeholder, among its options.
pub open spec fn valid_choices(chosen: Seq<Seq<char>>) -> bool {
    &&& chosen.len() == PLACEHOLDERS
    &&& forall|k: int| 0 <= k < PLACEHOLDERS ==> options_spec(k as nat).contains(#[trigger] chosen[k])
}

/// `out` is `piece` with each placeholder replaced by one of its options.
pub open spec fn is_filled_form(piece: Seq<char>, out: Seq<char>) -> bool {
    exists|chosen: Seq<Seq<char>>| valid_choices(chosen) && out == filled(piece, chosen, PLACEHOLDERS as nat)
}

/// A chunk of a response line with every placeholder replaced by the given
/// words (`chosen[k]` for placeholder `k`).
pub fn fill_with(value: &str, chosen: &[&str]) -> (r: String)
    requires
        chosen@.len() == PLACEHOLDERS,
    ensures
        r@ == filled(value@, Seq::new(PLACEHOLDERS as nat, |k: int| chosen@[k]@), PLACEHOLDERS as nat),
{
    let ghost cs = Seq::new(PLACEHOLDERS as nat, |k: int| chosen@[k]@);
    let mut out = to_chars(value);
    let mut k: usize = 0;
    while k < PLACEHOLDERS
        invariant
            k <= PLACEHOLDERS,
            chosen@.len() == PLACEHOLDERS,
            cs == Seq::new(PLACEHOLDERS as nat, |k: int| chosen@[k]@),
            out@ == filled(value@, cs, k as nat),
        decreases PLACEHOLDERS - k,
    {
        let pat = to_chars(placeholder(k));
        let rep = to_chars(chosen[k]);
        out = replace_all_chars(out.as_slice(), pat.as_slice(), rep.as_slice());
        k = k + 1;
    }
    from_chars(out.as_slice())
}

/// A chunk of a response line with every placeholder replaced by a word
/// chosen at random among its options (one choice per placeholder, used at
/// all of its occurrences).
pub fn chunk_from(value: &str) -> (r: String)
    ensures
        is_filled_form(value@, r@),
{
    let mut chosen: Vec<&'static str> = Vec::new();
    let mut k: usize = 0;
    while k < PLACEHOLDERS
        invariant
            k <= PLACEHOLDERS,
            chosen@.len() == k,
            forall|i: int| 0 <= i < k ==> options_spec(i as nat).contains((#[trigger] chosen@[i])@),
        decreases PLACEHOLDERS - k,
    {
        let opts = options(k);
        let pick = choose_from(opts.as_slice());
        match pick {
            Some(w) => {
                let ghost j = choose|j: int| 0 <= j < opts@.len() && opts@[j] == *w;
                assert(options_spec(k as nat)[j] == w@);
                chosen.push(*w);
            },
            None => {
                assert(opts@.len() == 0);
                assert(false);
            },
        }
        k = k + 1;
    }
    let r = fill_with(value, chosen.as_slice());
    let ghost cs = Seq::new(PLACEHOLDERS as nat, |k: int| chosen@[k]@);
    assert(valid_choices(cs));
    r
}

/// A response line cut at each space, every chunk with its placeholders
/// filled in.
pub fn chunk_list_from(line: &str) -> (r: Vec<String>)
    ensures
        r@.len() == split_on(line@, ' ').len(),
        forall|i: int| 0 <= i < r@.len() ==> is_filled_form(split_on(line@, ' ')[i], (#[trigger] r@[i])@),
{
    let cs = to_chars(line);
    let pieces = split_chars(cs.as_slice(), ' ');
    let mut out: Vec<String> = Vec::new();
    let mut i: usize = 0;
    while i < pieces.len()
        invariant
            i <= pieces@.len(),
            cs@ == line@,
            pieces@.len() == split_on(line@, ' ').len(),
            forall|j: int| 0 <= j < pieces@.len() ==> #[trigger] pieces@[j]@ == split_on(line@, ' ')[j],
            out@.len() == i,
            forall|j: int| 0 <= j < i ==> is_filled_form(split_on(line@, ' ')[j], (#[trigger] out@[j])@),
        decreases pieces.len() - i,
    {
        let piece = from_chars(pieces[i].as_slice());
        let c = chunk_from(piece.as_str());
        out.push(c);
        i = i + 1;
    }
    out
}

/// The character `c` does not occur in `s` from position `from` on.
pub open spec fn lacks_from(s: Seq<char>, c: char, from: int) -> bool {
    forall|i: int| from <= i < s.len() ==> s[i] != c
}

/// Replacing a pattern whose first character the text lacks changes nothing.
proof fn lemma_replace_absent(s: Seq<char>, pat: Seq<char>, rep: Seq<char>)
    requires
        pat.len() > 0,
        lacks_from(s, pat[0], 0),
    ensures
        replace_all(s, pat, rep) == s,
    decreases s.len(),
{
    if s.len() >= pat.len() {
        assert(s.take(pat.len() as int)[0] == s[0]);
        lemma_replace_absent(s.skip(1), pat, rep);
        assert(seq![s[0]] + s.skip(1) =~= s);
    }
}

/// Replacing a pattern that does not start the text, in a text whose other
/// characters lack the pattern's first one, changes nothing.
proof fn lemma_replace_other(s: Seq<char>, pat: Seq<char>, rep: Seq<char>)
    requires
        pat.len() >= 2,
        s.len() >= 2,
        lacks_from(s, pat[0], 1),
        s.len() < pat.len() || s[1] != pat[1],
    ensures
        replace_all(s, pat, rep) == s,
{
    if s.len() >= pat.len() {
        assert(s.take(pat.len() as int)[1] == s[1]);
        lemma_replace_absent(s.skip(1), pat, rep);
        assert(seq![s[0]] + s.skip(1) =~= s);
    }
}

/// Replacing a pattern in the text that is exactly the pattern gives the
/// replacement.
proof fn lemma_replace_whole(pat: Seq<char>, rep: Seq<char>)
    requires
        pat.len() > 0,
    ensures
        replace_all(pat, pat, rep) == rep,
{
    assert(pat.take(pat.len() as int) =~= pat);
    assert(pat.skip(pat.len() as int) =~= Seq::<char>::empty());
    assert(replace_all(Seq::<char>::empty(), pat, rep) == Seq::<char>::empty());
    assert(replace_all(pat, pat, rep) == rep + replace_all(pat.skip(pat.len() as int), pat, rep));
    assert(rep + Seq::<char>::empty() =~= rep);
}

/// The placeholders as written, character by character.
proof fn lemma_placeholder_chars()
    ensures
        placeholder_spec(0) =~= seq!['{', 'r', 'o', 'l', 'e', '}'],
        placeholder_spec(1) =~= seq!['{', 'p', 'r', 'o', 'n', 'o', 'u', 'n', '}'],
        placeholder_spec(2) =~= seq![
            '{', 'a', 'f', 'f', 'e', 'c', 't', 'i', 'o', 'n', 'a', 't', 'e', '_', 't', 'e', 'r', 'm', '}'
        ],
        placeholder_spec(3) =~= seq![
            '{', 'd', 'e', 'n', 'i', 'g', 'r', 'a', 't', 'i', 'n', 'g', '_', 't', 'e', 'r', 'm', '}'
        ],
        placeholder_spec(4) =~= seq!['{', 'p', 'a', 'r', 't', '}'],
        placeholder_spec(5) =~= seq!['~'],
{
    reveal_strlit("{role}");
    reveal_strlit("{pronoun}");
    reveal_strlit("{affectionate_term}");
    reveal_strlit("{denigrating_term}");
    reveal_strlit("{part}");
    reveal_strlit("~");
}

/// Every word that may fill a placeholder other than `~` lacks `{` and `~`;
/// `~` is filled with `\~`.
proof fn lemma_option_chars(k: nat, w: Seq<char>)
    requires
        k < PLACEHOLDERS,
        options_spec(k).contains(w),
    ensures
        k < 5 ==> lacks_from(w, '{', 0) && lacks_from(w, '~', 0),
        k == 5 ==> w =~= seq!['\\', '~'],
{
    reveal_strlit("mommy");
    reveal_strlit("her");
    reveal_strlit("girl");
    reveal_strlit("slut");
    reveal_strlit("toy");
    reveal_strlit("pet");
    reveal_strlit("pervert");
    reveal_strlit("whore");
    reveal_strlit("milk");
    reveal_strlit("\\~");
    let j = choose|j: int| 0 <= j < options_spec(k).len() && options_spec(k)[j] == w;
    assert(options_spec(k)[j] == w);
}

/// The text after the first `i` replacements of a chunk that is exactly
/// placeholder `k`: the placeholder itself until its own turn, its word after.
spec fn filled_placeholder(chosen: Seq<Seq<char>>, k: nat, i: nat) -> Seq<char> {
    if i <= k {
        placeholder_spec(k)
    } else {
        chosen[k as int]
    }
}

/// One replacement step on a chunk that is exactly placeholder `k`.
proof fn lemma_placeholder_step(chosen: Seq<Seq<char>>, k: nat, j: nat)
    requires
        valid_choices(chosen),
        k < PLACEHOLDERS,
        j < PLACEHOLDERS,
    ensures
        replace_all(filled_placeholder(chosen, k, j), placeholder_spec(j), chosen[j as int])
            == filled_placeholder(chosen, k, j + 1),
{
    lemma_placeholder_chars();
    let p = placeholder_spec(j);
    let s = filled_placeholder(chosen, k, j);
    assert(options_spec(k).contains(chosen[k as int]));
    lemma_option_chars(k, chosen[k as int]);
    if j < k {
        if k == 5 {
            assert(lacks_from(s, p[0], 0));
            lemma_replace_absent(s, p, chosen[j as int]);
        } else {
            assert(lacks_from(s, p[0], 1));
            lemma_replace_other(s, p, chosen[j as int]);
        }
    } else if j == k {
        lemma_replace_whole(p, chosen[j as int]);
    } else {
        assert(p[0] == '{' || p[0] == '~');
        lemma_replace_absent(s, p, chosen[j as int]);
    }
}

/// The first `i` replacements of a chunk that is exactly placeholder `k`.
proof fn lemma_placeholder_filled(chosen: Seq<Seq<char>>, k: nat, i: nat)
    requires
        valid_choices(chosen),
        k < PLACEHOLDERS,
        i <= PLACEHOLDERS,
    ensures
        filled(placeholder_spec(k), chosen, i) == filled_placeholder(chosen, k, i),
    decreases i,
{
    if i > 0 {
        lemma_placeholder_filled(chosen, k, (i - 1) as nat);
        lemma_placeholder_step(chosen, k, (i - 1) as nat);
    }
}

/// A chunk that is just a placeholder becomes the word chosen for that
/// placeholder: `{part}` becomes `milk`, `~` becomes `\~`, and so on.
pub proof fn law_placeholder_becomes_its_word(chosen: Seq<Seq<char>>, k: nat)
    requires
        valid_choices(chosen),
        k < PLACEHOLDERS,
    ensures
        filled(placeholder_spec(k), chosen, PLACEHOLDERS as nat) == chosen[k as int],
{
    lemma_placeholder_filled(chosen, k, PLACEHOLDERS as nat);
}

/// The first `i` replacements leave a text without `{` and `~` alone.
proof fn lemma_plain_filled(s: Seq<char>, chosen: Seq<Seq<char>>, i: nat)
    requires
        lacks_from(s, '{', 0),
        lacks_from(s, '~', 0),
        i <= PLACEHOLDERS,
    ensures
        filled(s, chosen, i) == s,
    decreases i,
{
    if i > 0 {
        lemma_plain_filled(s, chosen, (i - 1) as nat);
        lemma_placeholder_chars();
        let p = placeholder_spec((i - 1) as nat);
        assert(p[0] == '{' || p[0] == '~');
        lemma_replace_absent(s, p, chosen[i - 1]);
    }
}

/// Text without `{` and `~` holds no placeholder and is left as it is,
/// whatever the words chosen.
pub proof fn law_plain_text_unchanged(s: Seq<char>, chosen: Seq<Seq<char>>)
    requires
        lacks_from(s, '{', 0),
        lacks_from(s, '~', 0),
    ensures
        filled(s, chosen, PLACEHOLDERS as nat) == s,
{
    lemma_plain_filled(s, chosen, PLACEHOLDERS as nat);
}

// ---------------------------------------------------------------------------
// Responses
// ---------------------------------------------------------------------------

/// The emotes a response can end with.
pub open spec fn emotes_spec() -> Seq<Seq<char>> {
    seq![":heart:"@, ":revolving_hearts:"@, ":sparkling_heart:"@, ":heartbeat:"@, ":two_hearts:"@]
}

/// The emotes a response can end with.
pub fn emotes() -> (r: Vec<&'static str>)
    ensures
        r@.len() == emotes_spec().len(),
        forall|i: int| 0 <= i < r@.len() ==> (#[trigger] r@[i])@ == emotes_spec()[i],
{
    let mut r: Vec<&'static str> = Vec::new();
    r.push(":heart:");
    r.push(":revolving_hearts:");
    r.push(":sparkling_heart:");
    r.push(":heartbeat:");
    r.push(":two_hearts:");
    r
}

/// Every chunk followed by a space.
pub open spec fn spaced(chunks: Seq<Seq<char>>) -> Seq<char>
    decreases chunks.len(),
{
    if chunks.len() == 0 {
        Seq::<char>::empty()
    } else {
        spaced(chunks.drop_last()) + chunks.last() + seq![' ']
    }
}

/// A response: its chunks, each followed by a space, then the emote if
/// there is one.
pub open spec fn substituted(chunks: Seq<Seq<char>>, emote: Option<Seq<char>>) -> Seq<char> {
    match emote {
        Some(e) => spaced(chunks) + e,
        None => spaced(chunks),
    }
}

/// The views of a vector of strings.
pub open spec fn string_views(v: Seq<String>) -> Seq<Seq<char>> {
    Seq::new(v.len(), |k: int| v[k]@)
}

/// The chunks of a response joined into one message, with `emote` at the end
/// if there is one.
pub fn substitute_with(chunks: &[String], emote: Option<&str>) -> (r: String)
    ensures
        r@ == substituted(string_views(chunks@), match emote {
            Some(e) => Some(e@),
            None => None,
        }),
{
    let mut out: Vec<char> = Vec::new();
    let mut k: usize = 0;
    assert(string_views(chunks@).take(0) =~= Seq::<Seq<char>>::empty());
    while k < chunks.len()
        invariant
            k <= chunks@.len(),
            out@ == spaced(string_views(chunks@).take(k as int)),
        decreases chunks.len() - k,
    {
        let ghost t = string_views(chunks@).take(k + 1);
        assert(t.drop_last() =~= string_views(chunks@).take(k as int));
        assert(t.last() == chunks@[k as int]@);
        extend_str(&mut out, chunks[k].as_str());
        out.push(' ');
        assert(out@ =~= spaced(t));
        k = k + 1;
    }
    assert(string_views(chunks@).take(chunks@.len() as int) =~= string_views(chunks@));
    match emote {
        Some(e) => {
            extend_str(&mut out, e);
        },
        None => {},
    }
    from_chars(out.as_slice())
}

/// The chunks of a response joined into one message; with chance 1/2 a
/// random emote is added at the end.
pub fn substitute(chunks: &[String]) -> (r: String)
    ensures
        exists|emote: Option<Seq<char>>|
            (emote matches Some(e) ==> emotes_spec().contains(e)) && r@ == substituted(
                string_views(chunks@),
                emote,
            ),
{
    let es = emotes();
    let pick = if roll_ratio(1, 2) {
        choose_from(es.as_slice())
    } else {
        None
    };
    let emote: Option<&str> = match pick {
        Some(e) => Some(*e),
        None => None,
    };
    let r = substitute_with(chunks, emote);
    proof {
        if let Some(e) = pick {
            let j = choose|j: int| 0 <= j < es@.len() && es@[j] == *e;
            assert(emotes_spec()[j] == e@);
        }
    }
    r
}


/// A list of responses, each cut into chunks.
pub open spec fn list_view(v: Seq<Vec<String>>) -> Seq<Seq<Seq<char>>> {
    Seq::new(v.len(), |i: int| string_views(v[i]@))
}

/// The persona's response lines, cut into chunks with their placeholders
/// filled in: praise, scolding, and begging.
pub struct Responses {
    positive: Vec<Vec<String>>,
    negative: Vec<Vec<String>>,
    beg: Vec<Vec<String>>,
}

/// What a set of responses holds.
pub struct ResponsesView {
    pub positive: Seq<Seq<Seq<char>>>,
    pub negative: Seq<Seq<Seq<char>>>,
    pub beg: Seq<Seq<Seq<char>>>,
}

impl View for Responses {
    type V = ResponsesView;

    closed spec fn view(&self) -> ResponsesView {
        ResponsesView {
            positive: list_view(self.positive@),
            negative: list_view(self.negative@),
            beg: list_view(self.beg@),
        }
    }
}

/// `chunks` are the chunks of `line` with their placeholders filled in.
pub open spec fn chunks_of_line(line: Seq<char>, chunks: Seq<Seq<char>>) -> bool {
    &&& chunks.len() == split_on(line, ' ').len()
    &&& forall|j: int| 0 <= j < chunks.len() ==> is_filled_form(split_on(line, ' ')[j], #[trigger] chunks[j])
}

/// Every line of `lines` cut into chunks with its placeholders filled in.
pub open spec fn lines_chunked(lines: Seq<String>, list: Seq<Seq<Seq<char>>>) -> bool {
    &&& list.len() == lines.len()
    &&& forall|i: int| 0 <= i < lines.len() ==> chunks_of_line(lines[i]@, #[trigger] list[i])
}

/// Each line cut into chunks with its placeholders filled in.
fn chunk_lines(lines: &[String]) -> (r: Vec<Vec<String>>)
    ensures
        lines_chunked(lines@, list_view(r@)),
{
    let mut out: Vec<Vec<String>> = Vec::new();
    let mut i: usize = 0;
    while i < lines.len()
        invariant
            i <= lines@.len(),
            out@.len() == i,
            forall|j: int| 0 <= j < i ==> chunks_of_line(lines@[j]@, #[trigger] list_view(out@)[j]),
        decreases lines.len() - i,
    {
        let chunks = chunk_list_from(lines[i].as_str());
        let ghost old_out = out@;
        out.push(chunks);
        assert forall|j: int| 0 <= j < i + 1 implies chunks_of_line(lines@[j]@, #[trigger] list_view(out@)[j]) by {
            if j < i {
                assert(list_view(out@)[j] == list_view(old_out)[j]);
            } else {
                assert(list_view(out@)[j] == string_views(chunks@));
            }
        }
        i = i + 1;
    }
    out
}

impl Responses {
    /// Responses made from the raw lines of the persona's mood: praise,
    /// scolding and begging lines.
    pub fn from_lines(positive: &[String], negative: &[String], beg: &[String]) -> (r: Responses)
        ensures
            lines_chunked(positive@, r@.positive),
            lines_chunked(negative@, r@.negative),
            lines_chunked(beg@, r@.beg),
    {
        Responses { positive: chunk_lines(positive), negative: chunk_lines(negative), beg: chunk_lines(beg) }
    }

    /// How many praise, scolding and begging responses there are.
    pub fn counts(&self) -> (r: (usize, usize, usize))
        ensures
            r.0 == self@.positive.len(),
            r.1 == self@.negative.len(),
            r.2 == self@.beg.len(),
    {
        (self.positive.len(), self.negative.len(), self.beg.len())
    }
}

/// `r` is one of the responses of `list`, joined, possibly with an emote.
pub open spec fn is_response_from(list: Seq<Seq<Seq<char>>>, r: Seq<char>) -> bool {
    exists|i: int, emote: Option<Seq<char>>|
        0 <= i < list.len() && (emote matches Some(e) ==> emotes_spec().contains(e)) && r == substituted(
            list[i],
            emote,
        )
}

/// A random response of `list`, joined into one message.
fn pick_response(list: &Vec<Vec<String>>) -> (r: String)
    requires
        list@.len() > 0,
    ensures
        is_response_from(list_view(list@), r@),
{
    let pick = choose_from(list.as_slice());
    match pick {
        Some(chunks) => {
            let r = substitute(chunks.as_slice());
            proof {
                let i = choose|i: int| 0 <= i < list@.len() && list@[i] == *chunks;
                assert(list_view(list@)[i] == string_views(chunks@));
                let emote = choose|emote: Option<Seq<char>>|
                    (emote matches Some(e) ==> emotes_spec().contains(e)) && r@ == substituted(
                        string_views(chunks@),
                        emote,
                    );
                assert(0 <= i < list_view(list@).len());
            }
            r
        },
        None => {
            assert(false);
            String::new()
        },
    }
}

/// A random line of praise.
pub fn praise(responses: &Responses) -> (r: String)
    requires
        responses@.positive.len() > 0,
    ensures
        is_response_from(responses@.positive, r@),
{
    pick_response(&responses.positive)
}

/// A random line of scolding.
pub fn negative(responses: &Responses) -> (r: String)
    requires
        responses@.negative.len() > 0,
    ensures
        is_response_from(responses@.negative, r@),
{
    pick_response(&responses.negative)
}

/// A random line of begging.
pub fn beg(responses: &Responses) -> (r: String)
    requires
        responses@.beg.len() > 0,
    ensures
        is_response_from(responses@.beg, r@),
{
    pick_response(&responses.beg)
}


// ---------------------------------------------------------------------------
// Begging
// ---------------------------------------------------------------------------

/// What a command check does to the users who must beg, and whether the
/// command may run: a user who must beg, or who loses the random roll, is
/// stopped and must beg from then on.
pub open spec fn check_outcome(s: Set<u64>, user: u64, roll: bool) -> (bool, Set<u64>) {
    if s.contains(user) || roll {
        (false, s.insert(user))
    } else {
        (true, s)
    }
}

/// What a message does to the users who must beg, and whether the bot reacts
/// to it: a user who must beg and whose message begins with "please" (in any
/// case) is let off.
pub open spec fn please_outcome(s: Set<u64>, user: u64, content: Seq<char>) -> (bool, Set<u64>) {
    if s.contains(user) && starts_with(lowercase_of(content), "please"@) {
        (true, s.remove(user))
    } else {
        (false, s)
    }
}

/// The users who have to beg before their next command runs.
pub struct BegList {
    users: Vec<u64>,
}

impl View for BegList {
    type V = Set<u64>;

    closed spec fn view(&self) -> Set<u64> {
        self.users@.to_set()
    }
}

impl BegList {
    /// Nobody has to beg.
    pub fn new() -> (r: BegList)
        ensures
            r@ == Set::<u64>::empty(),
    {
        let r = BegList { users: Vec::new() };
        assert(r@ =~= Set::<u64>::empty());
        r
    }

    /// Whether `user` has to beg.
    pub fn contains(&self, user: u64) -> (r: bool)
        ensures
            r == self@.contains(user),
    {
        let mut i: usize = 0;
        while i < self.users.len()
            invariant
                i <= self.users@.len(),
                forall|j: int| 0 <= j < i ==> self.users@[j] != user,
            decreases self.users.len() - i,
        {
            if self.users[i] == user {
                assert(self.users@.contains(user));
                return true;
            }
            i = i + 1;
        }
        false
    }

    /// `user` has to beg from now on.
    fn insert(&mut self, user: u64)
        ensures
            final(self)@ == old(self)@.insert(user),
    {
        if !self.contains(user) {
            self.users.push(user);
        }
        assert(self@ =~= old(self)@.insert(user)) by {
            assert forall|x: u64| self@.contains(x) <==> old(self)@.insert(user).contains(x) by {
                if old(self).users@.contains(x) {
                    let j = choose|j: int| 0 <= j < old(self).users@.len() && old(self).users@[j] == x;
                    assert(self.users@[j] == x);
                }
                if x == user && old(self).users@.contains(user) {
                } else if x == user {
                    assert(self.users@[self.users@.len() - 1] == user);
                }
            }
        }
    }

    /// `user` no longer has to beg.
    fn remove(&mut self, user: u64)
        ensures
            final(self)@ == old(self)@.remove(user),
    {
        let ghost old_users = self.users@;
        let mut kept: Vec<u64> = Vec::new();
        let mut i: usize = 0;
        while i < self.users.len()
            invariant
                i <= self.users@.len(),
                self.users@ == old_users,
                forall|x: u64|
                    kept@.contains(x) <==> (x != user && exists|j: int| 0 <= j < i && old_users[j] == x),
            decreases self.users.len() - i,
        {
            let x = self.users[i];
            let ghost before = kept@;
            if x != user {
                kept.push(x);
            }
            assert forall|y: u64|
                kept@.contains(y) <==> (y != user && exists|j: int| 0 <= j < i + 1 && old_users[j] == y) by {
                if kept@.contains(y) {
                    let k = choose|k: int| 0 <= k < kept@.len() && kept@[k] == y;
                    if k < before.len() {
                        assert(before[k] == y);
                        assert(before.contains(y));
                    }
                }
                if y != user && exists|j: int| 0 <= j < i + 1 && old_users[j] == y {
                    let j = choose|j: int| 0 <= j < i + 1 && old_users[j] == y;
                    if j < i {
                        assert(before.contains(y));
                        let k = choose|k: int| 0 <= k < before.len() && before[k] == y;
                        assert(kept@[k] == y);
                    } else {
                        assert(kept@[kept@.len() - 1] == y);
                    }
                }
            }
            i = i + 1;
        }
        self.users = kept;
        assert(self@ =~= old(self)@.remove(user));
    }

    /// The command check with the random roll given: returns whether the
    /// command may run.
    pub fn check_with(&mut self, user: u64, roll: bool) -> (r: bool)
        ensures
            (r, final(self)@) == check_outcome(old(self)@, user, roll),
    {
        if self.contains(user) || roll {
            self.insert(user);
            false
        } else {
            true
        }
    }

    /// The command check: a user who must beg is stopped; anyone else is
    /// stopped with chance 1/10. A stopped user must beg from then on.
    /// Returns whether the command may run.
    pub fn check(&mut self, user: u64) -> (r: bool)
        ensures
            exists|roll: bool| (r, final(self)@) == check_outcome(old(self)@, user, roll),
    {
        if self.contains(user) {
            self.insert(user);
            assert((false, self@) == check_outcome(old(self)@, user, false));
            false
        } else {
            let roll = roll_ratio(1, 10);
            self.check_with(user, roll)
        }
    }

    /// A message from `user`: whether it lets the user off (the bot then
    /// reacts to it).
    pub fn message(&mut self, user: u64, content: &str) -> (r: bool)
        ensures
            (r, final(self)@) == please_outcome(old(self)@, user, content@),
    {
        if self.contains(user) && str_starts_with(lowercase(content).as_str(), "please") {
            self.remove(user);
            true
        } else {
            false
        }
    }
}

/// A user who has to beg is stopped by every command check, whatever the
/// random roll.
pub proof fn law_beggar_is_stopped(s: Set<u64>, user: u64, roll: bool)
    requires
        s.contains(user),
    ensures
        !check_outcome(s, user, roll).0,
{
}

/// A stopped user keeps being stopped by every later check until a
/// "please" message.
pub proof fn law_stopped_stays_stopped(s: Set<u64>, user: u64, first: bool, second: bool)
    requires
        !check_outcome(s, user, first).0,
    ensures
        !check_outcome(check_outcome(s, user, first).1, user, second).0,
{
}

/// After being stopped, a message beginning with "please" lets the user off,
/// and the next check lets the command run unless the random roll hits.
pub proof fn law_please_releases(s: Set<u64>, user: u64, roll: bool, content: Seq<char>)
    requires
        starts_with(lowercase_of(content), "please"@),
        !check_outcome(s, user, roll).0,
    ensures
        please_outcome(check_outcome(s, user, roll).1, user, content).0,
        !please_outcome(check_outcome(s, user, roll).1, user, content).1.contains(user),
        check_outcome(please_outcome(check_outcome(s, user, roll).1, user, content).1, user, false).0,
{
}

/// A message that does not begin with "please" changes nothing.
pub proof fn law_other_messages_change_nothing(s: Set<u64>, user: u64, content: Seq<char>)
    requires
        !starts_with(lowercase_of(content), "please"@),
    ensures
        please_outcome(s, user, content) == (false, s),
{
}

} // verus!
