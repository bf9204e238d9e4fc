//! The grid of lines and columns that the input lies on.
//!
//! Lines and columns count from 0, and columns count bytes.  A line ends with
//! its newline byte, which still belongs to the line; the byte after it
//! opens the next line in column 0.  A carriage return is a byte of its line
//! like any other, also where it stands before the newline: what a quoted
//! string holds is what the input holds.
//!
//! The scanner reads the input as a stream in which every line is closed: a
//! last line that has no newline of its own gets one, at the column of the
//! length of the line.

use vstd::prelude::*;

verus! {

/// The byte that ends a line.
pub const NEWLINE: u8 = 10;

/// The byte that may stand before the newline at the end of a line.
pub const CARRIAGE_RETURN: u8 = 13;

/// The line of the byte at offset `k`: the line of the byte before it, or the
/// next one where that byte ends a line.
pub open spec fn line_at(s: Seq<u8>, k: int) -> nat
    decreases k,
{
    if k <= 0 {
        0
    } else if s[k - 1] == NEWLINE {
        line_at(s, k - 1) + 1
    } else {
        line_at(s, k - 1)
    }
}

/// The column of the byte at offset `k`: one more than the column of the byte
/// before it, or 0 where that byte ends a line.
pub open spec fn column_at(s: Seq<u8>, k: int) -> nat
    decreases k,
{
    if k <= 0 {
        0
    } else if s[k - 1] == NEWLINE {
        0
    } else {
        column_at(s, k - 1) + 1
    }
}

/// Every byte of a text with its line and its column.
pub open spec fn annotated(s: Seq<u8>) -> Seq<(u8, usize, usize)> {
    Seq::new(s.len(), |k: int| (s[k], line_at(s, k) as usize, column_at(s, k) as usize))
}

/// The input with its last line closed: with a newline behind it, where it
/// is not empty and does not end with one.
pub open spec fn closed(s: Seq<u8>) -> Seq<u8> {
    if s.len() == 0 || s[s.len() - 1] == NEWLINE {
        s
    } else {
        s.push(NEWLINE)
    }
}

/// The stream of the input: every byte of every line with its line and its
/// column, in the order of the input, and every line closed by a newline at
/// the column of the length of the line, also a last line that has none of
/// its own.
pub open spec fn stream(s: Seq<u8>) -> Seq<(u8, usize, usize)> {
    annotated(closed(s))
}

/// The offset at which the content of the last line ends: the line end that
/// closes the input (a newline, with a carriage return before it or without)
/// is not content.
pub open spec fn end_offset(s: Seq<u8>) -> int {
    if s.len() >= 2 && s[s.len() - 1] == NEWLINE && s[s.len() - 2] == CARRIAGE_RETURN {
        s.len() - 2
    } else if s.len() >= 1 && s[s.len() - 1] == NEWLINE {
        s.len() - 1
    } else {
        s.len() as int
    }
}

/// The line and the column at which the content of the last line ends.
pub open spec fn end_position(s: Seq<u8>) -> (usize, usize) {
    (line_at(s, end_offset(s)) as usize, column_at(s, end_offset(s)) as usize)
}

/// The number of newline bytes among the bytes.
pub open spec fn newlines_in(s: Seq<u8>) -> nat {
    s.filter(|b: u8| b == NEWLINE).len()
}

/// The offset at which the line begins that the byte at offset `k` stands on.
pub open spec fn line_start(s: Seq<u8>, k: int) -> int
    decreases k,
{
    if k <= 0 {
        0
    } else if s[k - 1] == NEWLINE {
        k
    } else {
        line_start(s, k - 1)
    }
}

/// Lines and columns never exceed the offset.
pub proof fn lemma_position_bounds(s: Seq<u8>, k: int)
    requires
        0 <= k <= s.len(),
    ensures
        line_at(s, k) <= k,
        column_at(s, k) <= k,
    decreases k,
{
    if k > 0 {
        lemma_position_bounds(s, k - 1);
    }
}

/// The line start of an offset is the nearest offset at or before it that
/// follows a newline byte, or 0 where there is none.
pub proof fn lemma_line_start(s: Seq<u8>, k: int)
    requires
        0 <= k <= s.len(),
    ensures
        0 <= line_start(s, k) <= k,
        line_start(s, k) == 0 || s[line_start(s, k) - 1] == NEWLINE,
        forall|i: int| line_start(s, k) <= i < k ==> s[i] != NEWLINE,
    decreases k,
{
    if k > 0 && s[k - 1] != NEWLINE {
        lemma_line_start(s, k - 1);
    }
}

/// The grid agrees with a plain scan of the text: the line of an offset is the
/// number of newline bytes before it, and its column is its distance from the
/// start of its line.
pub proof fn lemma_grid_is_plain_scan(s: Seq<u8>, k: int)
    requires
        0 <= k <= s.len(),
    ensures
        line_at(s, k) == newlines_in(s.take(k)),
        column_at(s, k) == k - line_start(s, k),
    decreases k,
{
    reveal(Seq::filter);
    if k > 0 {
        lemma_grid_is_plain_scan(s, k - 1);
        assert(s.take(k).drop_last() =~= s.take(k - 1));
        assert(s.take(k).last() == s[k - 1]);
    } else {
        assert(s.take(k) =~= Seq::<u8>::empty());
    }
}

/// Closing the last line moves no byte: up to the end of the input the
/// lines and columns are those of the input.
pub proof fn lemma_closed_positions(s: Seq<u8>, k: int)
    requires
        0 <= k <= s.len(),
    ensures
        line_at(closed(s), k) == line_at(s, k),
        column_at(closed(s), k) == column_at(s, k),
    decreases k,
{
    if k > 0 {
        lemma_closed_positions(s, k - 1);
    }
}

/// The stream holds the bytes of the input, each with the line and the
/// column that a plain scan of the text gives it, and behind them the newline
/// that closes the last line, where the input has none.
pub proof fn lemma_stream_positions(s: Seq<u8>, k: int)
    requires
        s.len() <= usize::MAX,
        0 <= k < stream(s).len(),
    ensures
        s.len() <= stream(s).len() <= s.len() + 1,
        k <= s.len(),
        k < s.len() ==> stream(s)[k].0 == s[k],
        k == s.len() ==> stream(s)[k].0 == NEWLINE && s[s.len() - 1] != NEWLINE,
        stream(s)[k].1 == line_at(s, k),
        stream(s)[k].2 == column_at(s, k),
        stream(s)[k].1 == newlines_in(s.take(k)),
        stream(s)[k].2 == k - line_start(s, k),
{
    lemma_closed_positions(s, k);
    lemma_grid_is_plain_scan(s, k);
    lemma_position_bounds(s, k);
}

} // verus!
