//! Columns of text.

use vstd::prelude::*;

use crate::text;
use crate::text::{chars_of, concat, slice_text};

verus! {

/// A text in a column: padded with spaces, or cut off with three dots. A column of at most three
/// characters that is too narrow holds dots alone.
pub open spec fn fitted(s: Seq<char>, width: nat) -> Seq<char> {
    if s.len() <= width {
        s + Seq::new((width - s.len()) as nat, |i: int| ' ')
    } else if width <= 3 {
        Seq::new(width, |i: int| '.')
    } else {
        s.take(width - 3) + seq!['.', '.', '.']
    }
}

/// `n` times the character `c`.
fn repeated(c: char, n: usize) -> (r: String)
    ensures
        r@ == Seq::new(n as nat, |i: int| c),
{
    let mut out = String::new();
    let mut i: usize = 0;
    while i < n
        invariant
            i <= n,
            out@ == Seq::new(i as nat, |j: int| c),
        decreases n - i,
    {
        out.push(c);
        i += 1;
        assert(out@ =~= Seq::new(i as nat, |j: int| c));
    }
    out
}

/// Fits a text into a column.
pub fn fit_col(input: &str, width: usize) -> (r: String)
    ensures
        r@ == fitted(input@, width as nat),
{
    let cs = chars_of(input);
    if cs.len() <= width {
        let pad = repeated(' ', width - cs.len());
        return concat(input, pad.as_str());
    }
    if width <= 3 {
        return repeated('.', width);
    }
    let mut out = slice_text(&cs, 0, width - 3);
    proof {
        reveal_strlit("...");
        assert("..."@ =~= seq!['.', '.', '.']);
        assert(input@.take(width - 3) =~= input@.subrange(0, width - 3));
    }
    out.append("...");
    out
}

/// A text that is fitted into a column fills it exactly, and one that has the width of the column
/// is left as it is.
pub proof fn columns_are_filled(s: Seq<char>, width: nat)
    ensures
        fitted(s, width).len() == width,
        s.len() == width ==> fitted(s, width) == s,
{
    if s.len() == width {
        assert(fitted(s, width) =~= s);
    }
}

/// Texts, each in the column of its width.
pub open spec fn fitted_all(cells: Seq<Seq<char>>, widths: Seq<usize>) -> Seq<Seq<char>> {
    Seq::new(cells.len(), |i: int| fitted(cells[i], widths[i] as nat))
}

/// A row of columns, two spaces apart.
pub open spec fn row_of(cells: Seq<Seq<char>>, widths: Seq<usize>) -> Seq<char> {
    text::joined(fitted_all(cells, widths), "  "@)
}

/// Builds a row of columns.
pub fn row(cells: &Vec<String>, widths: &Vec<usize>) -> (r: String)
    requires
        cells@.len() == widths@.len(),
    ensures
        r@ == row_of(text::texts(cells@), widths@),
{
    let ghost all = fitted_all(text::texts(cells@), widths@);
    let mut parts: Vec<String> = Vec::new();
    let mut i: usize = 0;
    while i < cells.len()
        invariant
            i <= cells.len(),
            cells@.len() == widths@.len(),
            all == fitted_all(text::texts(cells@), widths@),
            text::texts(parts@) == all.take(i as int),
        decreases cells.len() - i,
    {
        let part = fit_col(cells[i].as_str(), widths[i]);
        let ghost before = parts@;
        parts.push(part);
        assert(text::texts(parts@) =~= text::texts(before).push(part@));
        assert(all.take(i + 1) =~= all.take(i as int).push(all[i as int]));
        i += 1;
    }
    assert(all.take(i as int) == all);
    text::join_from(&parts, 0, "  ")
}

} // verus!
