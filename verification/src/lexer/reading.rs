//! Reading an input token by token gives the tokens of the whole input.

use vstd::prelude::*;
use crate::lexer::grammar;
use crate::lexer::grammar::Run;
use crate::lexer::grid;
use crate::lexer::stream::Item;
use crate::lexer::{LexerError, TokenType, TokenView};

verus! {

/// The cursor that stands at offset `k` of the input.
pub open spec fn cursor_at(s: Seq<u8>, k: int) -> (usize, usize) {
    (grid::line_at(s, k) as usize, grid::column_at(s, k) as usize)
}

/// The tokens that are read from a cursor on, one after the other, up to and
/// with the end-of-input marker; `fuel` bounds their number.
pub open spec fn read_from(s: Seq<u8>, cursor: (usize, usize), fuel: nat) -> Result<
    Seq<TokenView>,
    LexerError,
>
    decreases fuel,
{
    let (found, behind) = crate::lexer::token_at_cursor(s, cursor);
    match found {
        Err(e) => Err(e),
        Ok(token) => if token.lexeme.kind == TokenType::TokenEof || fuel == 0 {
            Ok(seq![token])
        } else {
            match read_from(s, behind, (fuel - 1) as nat) {
                Ok(rest) => Ok(seq![token] + rest),
                Err(e) => Err(e),
            }
        },
    }
}

/// A later offset has a later position: a later line, or the same line and a
/// later column.
pub proof fn lemma_positions_go_up(s: Seq<u8>, i: int, j: int)
    requires
        0 <= i < j <= s.len(),
    ensures
        grid::line_at(s, i) < grid::line_at(s, j) || (grid::line_at(s, i) == grid::line_at(s, j)
            && grid::column_at(s, i) < grid::column_at(s, j)),
    decreases j - i,
{
    if i + 1 < j {
        lemma_positions_go_up(s, i, j - 1);
    }
}

/// Where a condition holds of no item before `k` and of every item from `k`
/// on, the items of which it holds are those from `k` on.
pub proof fn lemma_filter_is_skip(q: Seq<Item>, k: int, holds: spec_fn(Item) -> bool)
    requires
        0 <= k <= q.len(),
        forall|i: int| 0 <= i < k ==> !holds(#[trigger] q[i]),
        forall|i: int| k <= i < q.len() ==> holds(#[trigger] q[i]),
    ensures
        q.filter(holds) == q.skip(k),
    decreases q.len(),
{
    reveal(Seq::filter);
    if q.len() > 0 {
        let front = q.drop_last();
        if k == q.len() {
            lemma_filter_is_skip(front, k - 1, holds);
            assert(front.skip(k - 1) =~= q.skip(k));
        } else {
            lemma_filter_is_skip(front, k, holds);
            assert(front.skip(k).push(q.last()) =~= q.skip(k));
        }
    } else {
        assert(q.filter(holds) =~= q.skip(k));
    }
}

/// The items of the stream at or behind the cursor at offset `k` are those
/// from offset `k` on.
pub proof fn lemma_stream_from_cursor(s: Seq<u8>, k: int)
    requires
        s.len() <= usize::MAX,
        0 <= k <= s.len(),
    ensures
        grid::stream(s).filter(crate::lexer::at_or_behind(cursor_at(s, k).0, cursor_at(s, k).1))
            == grid::stream(s).skip(k),
{
    let c = grid::closed(s);
    let q = grid::stream(s);
    let holds = crate::lexer::at_or_behind(cursor_at(s, k).0, cursor_at(s, k).1);
    grid::lemma_position_bounds(s, k);
    grid::lemma_closed_positions(s, k);
    assert forall|i: int| 0 <= i < k implies !holds(#[trigger] q[i]) by {
        grid::lemma_position_bounds(c, i);
        lemma_positions_go_up(c, i, k);
    }
    assert forall|i: int| k <= i < q.len() implies holds(#[trigger] q[i]) by {
        grid::lemma_position_bounds(c, i);
        if k < i {
            lemma_positions_go_up(c, k, i);
        }
    }
    lemma_filter_is_skip(q, k, holds);
}

/// Skipping blanks in the items from `k` on is skipping them in all the items.
pub proof fn lemma_skip_blanks_shift(q: Seq<Item>, k: int, j: int)
    requires
        0 <= k,
        0 <= j,
        k + j <= q.len(),
    ensures
        grammar::skip_blanks(q.skip(k), j) == grammar::skip_blanks(q, k + j) - k,
    decreases q.len() - k - j,
{
    if k + j < q.len() && grammar::is_blank(q[k + j].0) {
        lemma_skip_blanks_shift(q, k, j + 1);
    }
}

/// A run in the items from `k` on is the run in all the items.
pub proof fn lemma_run_end_shift(q: Seq<Item>, k: int, j: int, run: Run)
    requires
        0 <= k,
        0 <= j,
        k + j <= q.len(),
    ensures
        grammar::run_end(q.skip(k), j, run) == grammar::run_end(q, k + j, run) - k,
    decreases q.len() - k - j,
{
    if k + j < q.len() && run.has(q[k + j].0) {
        lemma_run_end_shift(q, k, j + 1, run);
    }
}

/// The end of a string in the items from `k` on is its end in all the items.
pub proof fn lemma_string_end_shift(q: Seq<Item>, k: int, j: int)
    requires
        0 <= k,
        0 <= j,
        k + j <= q.len(),
    ensures
        grammar::string_end(q.skip(k), j) == match grammar::string_end(q, k + j) {
            Some(end) => Some(end - k),
            None => None,
        },
    decreases q.len() - k - j,
{
    if k + j < q.len() && q[k + j].0 != grammar::QUOTE {
        if q[k + j].0 == grammar::BACKSLASH {
            if k + j + 1 < q.len() {
                lemma_string_end_shift(q, k, j + 2);
            }
        } else {
            lemma_string_end_shift(q, k, j + 1);
        }
    }
}

/// The bytes between two offsets of the items from `k` on are those between
/// the offsets in all the items.
pub proof fn lemma_bytes_between_shift(q: Seq<Item>, k: int, from: int, to: int)
    requires
        0 <= k,
        0 <= from <= to,
        k + to <= q.len(),
    ensures
        grammar::bytes_between(q.skip(k), from, to) == grammar::bytes_between(
            q,
            k + from,
            k + to,
        ),
        grammar::text_between(q.skip(k), from, to) == grammar::text_between(q, k + from, k + to),
{
    assert(grammar::bytes_between(q.skip(k), from, to) =~= grammar::bytes_between(
        q,
        k + from,
        k + to,
    ));
}

/// The token at an offset of the items from `k` on is the token at the
/// offset in all the items.
pub proof fn lemma_scan_shift(q: Seq<Item>, k: int, j: int)
    requires
        0 <= k,
        0 <= j,
        k + j < q.len(),
    ensures
        grammar::scan(q.skip(k), j) == match grammar::scan(q, k + j) {
            Ok(scan) => Ok::<grammar::Scan, LexerError>(
                grammar::Scan { token: scan.token, next: scan.next - k },
            ),
            Err(e) => Err(e),
        },
{
    let r = q.skip(k);
    let at = k + j;
    lemma_run_end_shift(q, k, j, Run::Digits);
    lemma_run_end_shift(q, k, j, Run::Word);
    lemma_run_end_shift(q, k, j + 1, Run::Name);
    lemma_string_end_shift(q, k, j + 1);
    grammar::lemma_run_end(q, at, Run::Digits);
    grammar::lemma_run_end(q, at, Run::Word);
    grammar::lemma_run_end(q, at + 1, Run::Name);
    grammar::lemma_string_end(q, at + 1);
    lemma_bytes_between_shift(q, k, j, grammar::run_end(q, at, Run::Digits) - k);
    lemma_bytes_between_shift(q, k, j, grammar::run_end(q, at, Run::Word) - k);
    lemma_bytes_between_shift(q, k, j + 1, grammar::run_end(q, at + 1, Run::Name) - k);
    match grammar::string_end(q, at + 1) {
        Some(end) => {
            lemma_bytes_between_shift(q, k, j + 1, end - k);
        },
        None => {},
    }
    if at + 3 + 6 <= q.len() {
        lemma_bytes_between_shift(q, k, j + 3, j + 3 + 6);
    }
    if at + 3 + 5 <= q.len() {
        lemma_bytes_between_shift(q, k, j + 3, j + 3 + 5);
    }
    if at + 3 + 4 <= q.len() {
        lemma_bytes_between_shift(q, k, j + 3, j + 3 + 4);
    }
    assert(grammar::scan_marker(r, j) == match grammar::scan_marker(q, at) {
        Ok(scan) => Ok::<grammar::Scan, LexerError>(
            grammar::Scan { token: scan.token, next: scan.next - k },
        ),
        Err(e) => Err(e),
    });
    if grammar::is_letter(q[at].0) || q[at].0 == grammar::UNDERSCORE {
        let end = grammar::run_end(q, at, Run::Word);
        assert(r[end - k - 1] == q[end - 1]);
        assert(grammar::scan_word(r, j) == match grammar::scan_word(q, at) {
            Ok(scan) => Ok::<grammar::Scan, LexerError>(
                grammar::Scan { token: scan.token, next: scan.next - k },
            ),
            Err(e) => Err(e),
        });
    }
}

/// The last byte of a token ends no line, and no token is the end-of-input marker.
pub proof fn lemma_token_ends_no_line(q: Seq<Item>, k: int)
    requires
        0 <= k < q.len(),
    ensures
        grammar::scan(q, k) matches Ok(scan) ==> q[scan.next - 1].0 != grid::NEWLINE
            && scan.token.lexeme.kind != TokenType::TokenEof,
{
    grammar::lemma_run_end(q, k, Run::Digits);
    grammar::lemma_run_end(q, k, Run::Word);
    grammar::lemma_run_end(q, k + 1, Run::Name);
    grammar::lemma_string_end(q, k + 1);
    grammar::lemma_header_keyword(grammar::text_between(q, k, grammar::run_end(q, k, Run::Word)));
    if grammar::spells(q, k + 3, grammar::abort_tail()) {
        assert(grammar::bytes_between(q, k + 3, k + 9)[5] == grammar::abort_tail()[5]);
    }
    if grammar::spells(q, k + 3, grammar::body_tail()) {
        assert(grammar::bytes_between(q, k + 3, k + 8)[4] == grammar::body_tail()[4]);
    }
    if grammar::spells(q, k + 3, grammar::end_tail()) {
        assert(grammar::bytes_between(q, k + 3, k + 7)[3] == grammar::end_tail()[3]);
    }
}

/// What stands at the cursor at offset `k` is the first token of the stream
/// from offset `k` on, and the cursor behind it stands at the offset behind
/// the token.
pub proof fn lemma_token_at_cursor(s: Seq<u8>, k: int)
    requires
        s.len() <= usize::MAX,
        0 <= k <= s.len(),
    ensures
        crate::lexer::token_at_cursor(s, cursor_at(s, k)) == ({
            let q = grid::stream(s);
            let start = grammar::skip_blanks(q, k);
            if start >= q.len() {
                (
                    Ok::<TokenView, LexerError>(grammar::eof_token(grid::end_position(s))),
                    cursor_at(s, k),
                )
            } else {
                match grammar::scan(q, start) {
                    Ok(scan) => (Ok::<TokenView, LexerError>(scan.token), cursor_at(s, scan.next)),
                    Err(e) => (Err::<TokenView, LexerError>(e), cursor_at(s, k)),
                }
            }
        }),
        ({
            let q = grid::stream(s);
            let start = grammar::skip_blanks(q, k);
            start < q.len() ==> (grammar::scan(q, start) matches Ok(scan) ==> k < scan.next
                <= s.len())
        }),
{
    let q = grid::stream(s);
    let r = q.skip(k);
    lemma_stream_from_cursor(s, k);
    lemma_skip_blanks_shift(q, k, 0);
    grammar::lemma_skip_blanks(q, k);
    let start = grammar::skip_blanks(q, k);
    if start < q.len() {
        lemma_scan_shift(q, k, start - k);
        grammar::lemma_scan(q, start);
        lemma_token_ends_no_line(q, start);
        match grammar::scan(q, start) {
            Ok(scan) => {
                // the stream ends with a newline, and no token does
                assert(q[q.len() - 1].0 == grid::NEWLINE);
                assert(scan.next < q.len());
                grid::lemma_stream_positions(s, scan.next);
                grid::lemma_position_bounds(s, scan.next);
                assert(r[scan.next - k] == q[scan.next]);
            },
            Err(e) => {},
        }
    }
}

/// The tokens read from the cursor at offset `k` on are the tokens of the
/// stream from offset `k` on.
pub proof fn lemma_reading_from_offset(s: Seq<u8>, k: int, fuel: nat)
    requires
        s.len() <= usize::MAX,
        0 <= k <= s.len(),
        fuel >= s.len() + 1 - k,
    ensures
        read_from(s, cursor_at(s, k), fuel) == grammar::tokens_from(
            grid::stream(s),
            k,
            grid::end_position(s),
        ),
    decreases fuel,
{
    let q = grid::stream(s);
    lemma_token_at_cursor(s, k);
    grammar::lemma_skip_blanks(q, k);
    let start = grammar::skip_blanks(q, k);
    if start < q.len() {
        grammar::lemma_scan(q, start);
        lemma_token_ends_no_line(q, start);
        match grammar::scan(q, start) {
            Ok(scan) => {
                lemma_reading_from_offset(s, scan.next, (fuel - 1) as nat);
            },
            Err(e) => {},
        }
    }
}

/// Reading an input token by token from its start, up to the end-of-input
/// marker or the first malformed token, gives the tokens of the input.
pub proof fn lemma_reading_gives_the_tokens(s: Seq<u8>)
    requires
        s.len() <= usize::MAX,
    ensures
        read_from(s, (0usize, 0usize), s.len() + 1) == grammar::tokens_of(s),
{
    lemma_reading_from_offset(s, 0, s.len() + 1);
}

} // verus!
