//! The owner's SQL command: rows printed one column per line, sent in
//! pieces that fit in an embed.
use crate::text::{
    chunk_chars, chunks, decimal, extend_str, from_chars, push_decimal, push_signed_decimal,
    signed_decimal, starts_with, str_starts_with, to_chars,
};
use vstd::prelude::*;

verus! {

/// A column of a result row: its name and its value read as text or as an
/// `i32`, where it reads as either.
pub struct Column {
    pub name: String,
    pub text: Option<String>,
    pub number: Option<i32>,
}

/// A column's value as printed: its text, else its number, else `None`;
/// values that begin with `http` are put in angle brackets.
pub open spec fn stringify_spec(text: Option<Seq<char>>, number: Option<i32>) -> Seq<char> {
    let s = match text {
        Some(t) => t,
        None => match number {
            Some(n) => signed_decimal(n as int),
            None => "None"@,
        },
    };
    if starts_with(s, "http"@) {
        "<"@ + s + ">"@
    } else {
        s
    }
}

/// A column's value as printed.
pub fn stringify(text: Option<&str>, number: Option<i32>) -> (r: String)
    ensures
        r@ == stringify_spec(
            match text {
                Some(t) => Some(t@),
                None => None,
            },
            number,
        ),
{
    let mut s: Vec<char> = Vec::new();
    match text {
        Some(t) => extend_str(&mut s, t),
        None => match number {
            Some(n) => push_signed_decimal(&mut s, n as i64),
            None => extend_str(&mut s, "None"),
        },
    }
    let sv = from_chars(s.as_slice());
    if str_starts_with(sv.as_str(), "http") {
        let mut v: Vec<char> = Vec::new();
        extend_str(&mut v, "<");
        extend_str(&mut v, sv.as_str());
        extend_str(&mut v, ">");
        from_chars(v.as_slice())
    } else {
        sv
    }
}

/// The column's value as printed.
pub open spec fn column_value(c: Column) -> Seq<char> {
    stringify_spec(
        match c.text {
            Some(t) => Some(t@),
            None => None,
        },
        c.number,
    )
}

/// One row printed: its number, then one line per column.
pub open spec fn row_text(i: nat, row: Seq<Column>) -> Seq<char>
    decreases row.len(),
{
    if row.len() == 0 {
        decimal(i) + ":\n"@
    } else {
        row_text(i, row.drop_last()) + "  "@ + row.last().name@ + " -> "@ + column_value(row.last()) + "\n"@
    }
}

/// The rows printed one after the other.
pub open spec fn rows_text(rows: Seq<Vec<Column>>) -> Seq<char>
    decreases rows.len(),
{
    if rows.len() == 0 {
        Seq::<char>::empty()
    } else {
        rows_text(rows.drop_last()) + row_text((rows.len() - 1) as nat, rows.last()@)
    }
}

/// The rows of a query result printed one after the other.
pub fn format_rows(rows: &[Vec<Column>]) -> (r: String)
    ensures
        r@ == rows_text(rows@),
{
    let mut out: Vec<char> = Vec::new();
    let mut i: usize = 0;
    assert(rows@.take(0) =~= Seq::<Vec<Column>>::empty());
    while i < rows.len()
        invariant
            i <= rows@.len(),
            out@ == rows_text(rows@.take(i as int)),
        decreases rows.len() - i,
    {
        let ghost s = rows@.take(i + 1);
        assert(s.drop_last() =~= rows@.take(i as int));
        let ghost head = out@;
        let row = &rows[i];
        push_decimal(&mut out, i as u64);
        extend_str(&mut out, ":\n");
        let mut k: usize = 0;
        assert(row@.take(0) =~= Seq::<Column>::empty());
        while k < row.len()
            invariant
                k <= row@.len(),
                out@ == head + row_text(i as nat, row@.take(k as int)),
            decreases row.len() - k,
        {
            let ghost t = row@.take(k + 1);
            assert(t.drop_last() =~= row@.take(k as int));
            let c = &row[k];
            let text = match &c.text {
                Some(t) => Some(t.as_str()),
                None => None,
            };
            let value = stringify(text, c.number);
            extend_str(&mut out, "  ");
            extend_str(&mut out, c.name.as_str());
            extend_str(&mut out, " -> ");
            extend_str(&mut out, value.as_str());
            extend_str(&mut out, "\n");
            assert(out@ =~= head + row_text(i as nat, t));
            k = k + 1;
        }
        assert(row@.take(k as int) =~= row@);
        assert(out@ =~= rows_text(s));
        i = i + 1;
    }
    assert(rows@.take(i as int) =~= rows@);
    from_chars(out.as_slice())
}

/// The printed result cut into embed descriptions of at most 4096
/// characters.
pub fn reply_pieces(out: &str) -> (r: Vec<String>)
    ensures
        r@.len() == chunks(out@, 4096).len(),
        forall|k: int| 0 <= k < r@.len() ==> #[trigger] r@[k]@ == chunks(out@, 4096)[k],
{
    chunk_chars(out, 4096)
}

} // verus!
