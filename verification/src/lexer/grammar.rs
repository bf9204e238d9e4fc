//! What the tokens of an input are: the lexical grammar of the format, stated
//! over the annotated bytes of the input.

use vstd::prelude::*;
use crate::lexer::stream::Item;
use crate::lexer::{LexerError, LexerErrorKind, Lexeme, TokenType, TokenView};

verus! {

/// `-`, which opens a marker.
pub const DASH: u8 = 45;

/// `"`, which opens and closes a quoted string.
pub const QUOTE: u8 = 34;

/// `\`, which takes the special meaning from the byte behind it.
pub const BACKSLASH: u8 = 92;

/// `@`, which opens an alias name.
pub const AT: u8 = 64;

/// `_`, a letter for the purposes of names.
pub const UNDERSCORE: u8 = 95;

/// `:`, which closes a header keyword.
pub const COLON: u8 = 58;

/// Space, tab, line feed, vertical tab, form feed and carriage return.
pub open spec fn is_blank(b: u8) -> bool {
    b == 32 || (9 <= b && b <= 13)
}

/// `0` to `9`.
pub open spec fn is_digit(b: u8) -> bool {
    48 <= b && b <= 57
}

/// `A` to `Z` and `a` to `z`.
pub open spec fn is_letter(b: u8) -> bool {
    (65 <= b && b <= 90) || (97 <= b && b <= 122)
}

/// The kinds of runs that tokens are made of.
#[derive(Debug, Clone, Copy, PartialEq, Eq, Structural)]
pub enum Run {
    /// The digits of an integer.
    Digits,
    /// The bytes of an alias name: letters, digits, `_` and `-`.
    Name,
    /// The bytes of an identifier or a header keyword: those of a name, and `:`.
    Word,
}

impl Run {
    /// Whether a byte belongs to a run of this kind.
    pub open spec fn has(self, b: u8) -> bool {
        match self {
            Run::Digits => is_digit(b),
            Run::Name => is_letter(b) || is_digit(b) || b == UNDERSCORE || b == DASH,
            Run::Word => is_letter(b) || is_digit(b) || b == UNDERSCORE || b == DASH || b
                == COLON,
        }
    }
}

/// The category of a byte that is a token by itself.
pub open spec fn punctuation(b: u8) -> Option<TokenType> {
    if b == 33 {
        // !
        Some(TokenType::TokenNot)
    } else if b == 38 {
        // &
        Some(TokenType::TokenAnd)
    } else if b == 124 {
        // |
        Some(TokenType::TokenOr)
    } else if b == 40 {
        // (
        Some(TokenType::TokenLparenth)
    } else if b == 41 {
        // )
        Some(TokenType::TokenRparenth)
    } else if b == 91 {
        // [
        Some(TokenType::TokenLbracket)
    } else if b == 93 {
        // ]
        Some(TokenType::TokenRbracket)
    } else if b == 123 {
        // {
        Some(TokenType::TokenLcurly)
    } else if b == 125 {
        // }
        Some(TokenType::TokenRcurly)
    } else {
        None
    }
}

/// The bytes of the items from `from` up to `to`.
pub open spec fn bytes_between(q: Seq<Item>, from: int, to: int) -> Seq<u8> {
    Seq::new((to - from) as nat, |i: int| q[from + i].0)
}

/// The text of the items from `from` up to `to`.
pub open spec fn text_between(q: Seq<Item>, from: int, to: int) -> Seq<char> {
    crate::text::bytes_text(bytes_between(q, from, to))
}

/// The first offset at or behind `k` whose byte is not blank, or the end.
pub open spec fn skip_blanks(q: Seq<Item>, k: int) -> int
    decreases q.len() - k,
{
    if 0 <= k < q.len() && is_blank(q[k].0) {
        skip_blanks(q, k + 1)
    } else {
        k
    }
}

/// The first offset at or behind `k` whose byte does not belong to the run, or the end.
pub open spec fn run_end(q: Seq<Item>, k: int, run: Run) -> int
    decreases q.len() - k,
{
    if 0 <= k < q.len() && run.has(q[k].0) {
        run_end(q, k + 1, run)
    } else {
        k
    }
}

/// The offset of the quote that closes a string whose content starts at `k`.
/// A backslash takes the byte behind it along, whatever it is; `None` where
/// the input ends first.
pub open spec fn string_end(q: Seq<Item>, k: int) -> Option<int>
    decreases q.len() - k,
{
    if !(0 <= k < q.len()) {
        None
    } else if q[k].0 == QUOTE {
        Some(k)
    } else if q[k].0 == BACKSLASH {
        if k + 1 < q.len() {
            string_end(q, k + 2)
        } else {
            None
        }
    } else {
        string_end(q, k + 1)
    }
}

/// The value of a run of digits, read as a decimal number.
pub open spec fn decimal_value(digits: Seq<u8>) -> nat
    decreases digits.len(),
{
    if digits.len() == 0 {
        0
    } else {
        decimal_value(digits.drop_last()) * 10 + (digits.last() - 48) as nat
    }
}

/// The texts of the header keywords, each with its category.
pub open spec fn header_keywords() -> Seq<(Seq<char>, TokenType)> {
    seq![
        ("HOA:"@, TokenType::TokenHoa),
        ("State:"@, TokenType::TokenState),
        ("States:"@, TokenType::TokenStates),
        ("Start:"@, TokenType::TokenStart),
        ("AP:"@, TokenType::TokenAp),
        ("Alias:"@, TokenType::TokenAlias),
        ("Acceptance:"@, TokenType::TokenAcceptance),
        ("acc-name:"@, TokenType::TokenAccname),
        ("tool:"@, TokenType::TokenTool),
        ("name:"@, TokenType::TokenName),
        ("properties:"@, TokenType::TokenProperties),
    ]
}

/// The category that the first entry at or behind `from` gives to a text.
pub open spec fn keyword_from(table: Seq<(Seq<char>, TokenType)>, text: Seq<char>, from: int)
    -> Option<TokenType>
    decreases table.len() - from,
{
    if !(0 <= from < table.len()) {
        None
    } else if table[from].0 == text {
        Some(table[from].1)
    } else {
        keyword_from(table, text, from + 1)
    }
}

/// The category of a header keyword, `None` for a text that is none.
pub open spec fn header_keyword(text: Seq<char>) -> Option<TokenType> {
    keyword_from(header_keywords(), text, 0)
}

/// A token found in the input, and the offset behind it.
pub struct Scan {
    pub token: TokenView,
    pub next: int,
}

/// A token at the position of the item at offset `k`, and the offset behind it.
pub open spec fn found(q: Seq<Item>, k: int, lexeme: Lexeme, next: int) -> Result<
    Scan,
    LexerError,
> {
    Ok(Scan { token: TokenView { lexeme, line: q[k].1, col: q[k].2 }, next })
}

/// A malformed token at the position of the item at offset `k`.
pub open spec fn refused(q: Seq<Item>, k: int, kind: LexerErrorKind) -> Result<Scan, LexerError> {
    Err(LexerError { kind, line: q[k].1, col: q[k].2 })
}

/// Whether the items from `k` on start with the given bytes.
pub open spec fn spells(q: Seq<Item>, k: int, word: Seq<u8>) -> bool {
    k + word.len() <= q.len() && bytes_between(q, k, k + word.len()) == word
}

/// `BORT--`, what follows `--A` in `--ABORT--`.
pub open spec fn abort_tail() -> Seq<u8> {
    seq![66u8, 79u8, 82u8, 84u8, 45u8, 45u8]
}

/// `ODY--`, what follows `--B` in `--BODY--`.
pub open spec fn body_tail() -> Seq<u8> {
    seq![79u8, 68u8, 89u8, 45u8, 45u8]
}

/// `ND--`, what follows `--E` in `--END--`.
pub open spec fn end_tail() -> Seq<u8> {
    seq![78u8, 68u8, 45u8, 45u8]
}

/// The marker that starts at `k` with a dash: `--ABORT--`, `--BODY--` or `--END--`.
pub open spec fn scan_marker(q: Seq<Item>, k: int) -> Result<Scan, LexerError> {
    if !(k + 1 < q.len() && q[k + 1].0 == DASH) {
        refused(q, k, LexerErrorKind::MissingDash)
    } else if !(k + 2 < q.len()) {
        refused(q, k, LexerErrorKind::UnknownMarker)
    } else if q[k + 2].0 == 65 {
        // A
        if spells(q, k + 3, abort_tail()) {
            found(q, k, Lexeme::plain(TokenType::TokenAbort), k + 9)
        } else {
            refused(q, k, LexerErrorKind::ExpectedAbort)
        }
    } else if q[k + 2].0 == 66 {
        // B
        if spells(q, k + 3, body_tail()) {
            found(q, k, Lexeme::plain(TokenType::TokenBody), k + 8)
        } else {
            refused(q, k, LexerErrorKind::ExpectedBody)
        }
    } else if q[k + 2].0 == 69 {
        // E
        if spells(q, k + 3, end_tail()) {
            found(q, k, Lexeme::plain(TokenType::TokenEnd), k + 7)
        } else {
            refused(q, k, LexerErrorKind::ExpectedEnd)
        }
    } else {
        refused(q, k, LexerErrorKind::UnknownMarker)
    }
}

/// The identifier, the literal or the header keyword that starts at `k`: the
/// longest run of word bytes.  A run that ends in `:` is a header keyword where
/// the table has it, and a header name else; `t` and `f` are the literals.
pub open spec fn scan_word(q: Seq<Item>, k: int) -> Result<Scan, LexerError> {
    let end = run_end(q, k, Run::Word);
    let text = text_between(q, k, end);
    if q[end - 1].0 == COLON {
        match header_keyword(text) {
            Some(kind) => found(q, k, Lexeme::plain(kind), end),
            None => found(q, k, Lexeme::with_text(TokenType::TokenHeaderName, text), end),
        }
    } else if text == "t"@ {
        found(q, k, Lexeme::with_text(TokenType::TokenTrue, text), end)
    } else if text == "f"@ {
        found(q, k, Lexeme::with_text(TokenType::TokenFalse, text), end)
    } else {
        found(q, k, Lexeme::with_text(TokenType::TokenIdent, text), end)
    }
}

/// The token that starts at offset `k`, where a byte stands that is not blank.
pub open spec fn scan(q: Seq<Item>, k: int) -> Result<Scan, LexerError> {
    let b = q[k].0;
    if punctuation(b) is Some {
        found(q, k, Lexeme::plain(punctuation(b).unwrap()), k + 1)
    } else if b == DASH {
        scan_marker(q, k)
    } else if b == QUOTE {
        match string_end(q, k + 1) {
            Some(end) => found(
                q,
                k,
                Lexeme::with_text(TokenType::TokenString, text_between(q, k + 1, end)),
                end + 1,
            ),
            None => refused(q, k, LexerErrorKind::UnterminatedString),
        }
    } else if is_digit(b) {
        let end = run_end(q, k, Run::Digits);
        let value = decimal_value(bytes_between(q, k, end));
        if value <= usize::MAX {
            found(q, k, Lexeme::with_int(TokenType::TokenInt, value as usize), end)
        } else {
            refused(q, k, LexerErrorKind::InvalidInteger)
        }
    } else if b == AT {
        let end = run_end(q, k + 1, Run::Name);
        found(
            q,
            k,
            Lexeme::with_text(TokenType::TokenAliasName, text_between(q, k + 1, end)),
            end,
        )
    } else if is_letter(b) || b == UNDERSCORE {
        scan_word(q, k)
    } else {
        refused(q, k, LexerErrorKind::UnrecognizedCharacter)
    }
}

/// The end-of-input marker at the given line and column.
pub open spec fn eof_token(end: (usize, usize)) -> TokenView {
    TokenView { lexeme: Lexeme::plain(TokenType::TokenEof), line: end.0, col: end.1 }
}

/// The tokens of the items from offset `k` on, closed by the end-of-input
/// marker at `end`; the first malformed token where there is one.
/// (A token never ends where it starts; the comparison of `k` and the offset
/// behind the token says so to the termination check.)
pub open spec fn tokens_from(q: Seq<Item>, k: int, end: (usize, usize)) -> Result<
    Seq<TokenView>,
    LexerError,
>
    decreases q.len() - k,
{
    let start = skip_blanks(q, k);
    if !(0 <= start < q.len()) {
        Ok(seq![eof_token(end)])
    } else {
        match scan(q, start) {
            Err(e) => Err(e),
            Ok(scan) => if k < scan.next <= q.len() {
                match tokens_from(q, scan.next, end) {
                    Err(e) => Err(e),
                    Ok(rest) => Ok(seq![scan.token] + rest),
                }
            } else {
                Ok(seq![scan.token, eof_token(end)])
            },
        }
    }
}

/// The offsets at which the tokens of the items from offset `k` on start, the
/// end-of-input marker left out.
pub open spec fn starts_from(q: Seq<Item>, k: int) -> Seq<int>
    decreases q.len() - k,
{
    let start = skip_blanks(q, k);
    if !(0 <= start < q.len()) {
        Seq::empty()
    } else {
        match scan(q, start) {
            Err(e) => Seq::empty(),
            Ok(scan) => if k < scan.next <= q.len() {
                seq![start] + starts_from(q, scan.next)
            } else {
                seq![start]
            },
        }
    }
}

/// The offsets in the input at which its tokens start, the end-of-input marker left out.
pub open spec fn token_starts(s: Seq<u8>) -> Seq<int> {
    starts_from(crate::lexer::grid::stream(s), 0)
}

/// The tokens of an input.
pub open spec fn tokens_of(s: Seq<u8>) -> Result<Seq<TokenView>, LexerError> {
    tokens_from(crate::lexer::grid::stream(s), 0, crate::lexer::grid::end_position(s))
}

/// Skipping blanks ends at or behind its start, within the input, at a byte
/// that is not blank if at any.
pub proof fn lemma_skip_blanks(q: Seq<Item>, k: int)
    requires
        0 <= k <= q.len(),
    ensures
        k <= skip_blanks(q, k) <= q.len(),
        skip_blanks(q, k) < q.len() ==> !is_blank(q[skip_blanks(q, k)].0),
        forall|i: int| k <= i < skip_blanks(q, k) ==> is_blank(#[trigger] q[i].0),
    decreases q.len() - k,
{
    if k < q.len() && is_blank(q[k].0) {
        lemma_skip_blanks(q, k + 1);
    }
}

/// A run ends at or behind its start, within the input, at a byte that does
/// not belong to it if at any; the bytes before its end belong to it.
pub proof fn lemma_run_end(q: Seq<Item>, k: int, run: Run)
    requires
        0 <= k <= q.len(),
    ensures
        k <= run_end(q, k, run) <= q.len(),
        run_end(q, k, run) < q.len() ==> !run.has(q[run_end(q, k, run)].0),
        forall|i: int| k <= i < run_end(q, k, run) ==> run.has(#[trigger] q[i].0),
        k < q.len() && run.has(q[k].0) ==> k < run_end(q, k, run),
    decreases q.len() - k,
{
    if k < q.len() && run.has(q[k].0) {
        lemma_run_end(q, k + 1, run);
    }
}

/// The quote that closes a string stands at or behind the start of the
/// content, within the input.
pub proof fn lemma_string_end(q: Seq<Item>, k: int)
    requires
        0 <= k <= q.len(),
    ensures
        string_end(q, k) matches Some(end) ==> k <= end < q.len() && q[end].0 == QUOTE,
    decreases q.len() - k,
{
    if k < q.len() && q[k].0 != QUOTE {
        if q[k].0 == BACKSLASH {
            if k + 1 < q.len() {
                lemma_string_end(q, k + 2);
            }
        } else {
            lemma_string_end(q, k + 1);
        }
    }
}

/// A token ends behind its start, within the input, and stands at the
/// position of its first byte; so does a malformed token.
pub proof fn lemma_scan(q: Seq<Item>, k: int)
    requires
        0 <= k < q.len(),
    ensures
        match scan(q, k) {
            Ok(scan) => k < scan.next <= q.len() && scan.token.line == q[k].1 && scan.token.col
                == q[k].2,
            Err(e) => e.line == q[k].1 && e.col == q[k].2,
        },
{
    lemma_run_end(q, k, Run::Digits);
    lemma_run_end(q, k, Run::Word);
    lemma_run_end(q, k + 1, Run::Name);
    lemma_string_end(q, k + 1);
}

/// A header keyword has one of the categories of the table, none of which
/// calls for a payload.
pub proof fn lemma_header_keyword(text: Seq<char>)
    ensures
        header_keyword(text) matches Some(kind) ==> Lexeme::plain(kind).has_payload() && kind
            != TokenType::TokenEof,
{
    reveal_with_fuel(keyword_from, 12);
}

/// A token has the payload that its category calls for.
pub proof fn lemma_scan_payload(q: Seq<Item>, k: int)
    requires
        0 <= k < q.len(),
    ensures
        scan(q, k) matches Ok(scan) ==> scan.token.lexeme.has_payload(),
{
    lemma_header_keyword(text_between(q, k, run_end(q, k, Run::Word)));
}

/// The tokens of an input have the payload that their categories call for.
pub proof fn lemma_tokens_carry_their_payload(q: Seq<Item>, k: int, end: (usize, usize))
    requires
        0 <= k <= q.len(),
    ensures
        tokens_from(q, k, end) matches Ok(tokens) ==> forall|i: int|
            0 <= i < tokens.len() ==> (#[trigger] tokens[i]).lexeme.has_payload(),
    decreases q.len() - k,
{
    lemma_skip_blanks(q, k);
    let start = skip_blanks(q, k);
    if start < q.len() {
        lemma_scan(q, start);
        lemma_scan_payload(q, start);
        match scan(q, start) {
            Ok(scan) => {
                lemma_tokens_carry_their_payload(q, scan.next, end);
            },
            Err(e) => {},
        }
    }
}

/// The end-of-input marker is the last of the tokens of an input, and no other one.
pub proof fn lemma_end_of_input_is_last(q: Seq<Item>, k: int, end: (usize, usize))
    requires
        0 <= k <= q.len(),
    ensures
        tokens_from(q, k, end) matches Ok(tokens) ==> tokens.len() >= 1 && forall|i: int|
            0 <= i < tokens.len() ==> ((#[trigger] tokens[i]).lexeme.kind == TokenType::TokenEof
                <==> i == tokens.len() - 1),
    decreases q.len() - k,
{
    lemma_skip_blanks(q, k);
    let start = skip_blanks(q, k);
    if start < q.len() {
        lemma_scan(q, start);
        lemma_header_keyword(text_between(q, start, run_end(q, start, Run::Word)));
        match scan(q, start) {
            Ok(scan) => {
                lemma_end_of_input_is_last(q, scan.next, end);
            },
            Err(e) => {},
        }
    }
}

/// The value of a run of digits is at least the value of each of its beginnings.
pub proof fn lemma_decimal_value_grows(digits: Seq<u8>, n: int)
    requires
        0 <= n <= digits.len(),
        forall|i: int| 0 <= i < digits.len() ==> is_digit(#[trigger] digits[i]),
    ensures
        decimal_value(digits.take(n)) <= decimal_value(digits),
    decreases digits.len() - n,
{
    if n < digits.len() {
        lemma_decimal_value_grows(digits, n + 1);
        assert(digits.take(n + 1).drop_last() =~= digits.take(n));
    } else {
        assert(digits.take(n) =~= digits);
    }
}

/// Each token stands at the position of the item it starts at, the starts go
/// up, and the end-of-input marker closes the tokens.
pub proof fn lemma_tokens_stand_at_their_starts(q: Seq<Item>, k: int, end: (usize, usize))
    requires
        0 <= k <= q.len(),
    ensures
        tokens_from(q, k, end) matches Ok(tokens) ==> {
            let starts = starts_from(q, k);
            &&& tokens.len() == starts.len() + 1
            &&& tokens.last() == eof_token(end)
            &&& forall|i: int|
                0 <= i < starts.len() ==> {
                    &&& k <= #[trigger] starts[i] < q.len()
                    &&& !is_blank(q[starts[i]].0)
                    &&& tokens[i].line == q[starts[i]].1
                    &&& tokens[i].col == q[starts[i]].2
                    &&& i + 1 < starts.len() ==> starts[i] < starts[i + 1]
                }
        },
    decreases q.len() - k,
{
    lemma_skip_blanks(q, k);
    let start = skip_blanks(q, k);
    if start < q.len() {
        lemma_scan(q, start);
        match scan(q, start) {
            Ok(scan) => {
                lemma_tokens_stand_at_their_starts(q, scan.next, end);
                match tokens_from(q, scan.next, end) {
                    Ok(rest) => {
                        let tokens = seq![scan.token] + rest;
                        let later = starts_from(q, scan.next);
                        let starts = seq![start] + later;
                        assert(tokens.last() == rest.last());
                        assert forall|i: int| 0 <= i < starts.len() implies {
                            &&& k <= #[trigger] starts[i] < q.len()
                            &&& !is_blank(q[starts[i]].0)
                            &&& tokens[i].line == q[starts[i]].1
                            &&& tokens[i].col == q[starts[i]].2
                            &&& i + 1 < starts.len() ==> starts[i] < starts[i + 1]
                        } by {
                            if i > 0 {
                                assert(starts[i] == later[i - 1]);
                                assert(tokens[i] == rest[i - 1]);
                                if i + 1 < starts.len() {
                                    assert(starts[i + 1] == later[i]);
                                }
                            } else if i + 1 < starts.len() {
                                assert(starts[i + 1] == later[0]);
                            }
                        }
                    },
                    Err(e) => {},
                }
            },
            Err(e) => {},
        }
    }
}

/// The positions of the tokens are those of a plain scan of the text: each
/// token but the last starts at an offset of the input where a byte stands
/// that is not blank, its line is the number of newline bytes before that
/// offset, and its column is the distance of the offset from the start of its
/// line.  The offsets go up.  The last token is the end-of-input marker, at
/// the position where the content of the last line ends.
pub proof fn lemma_token_positions_follow_the_text(s: Seq<u8>)
    requires
        s.len() <= usize::MAX,
    ensures
        tokens_of(s) matches Ok(tokens) ==> {
            let starts = token_starts(s);
            let end = crate::lexer::grid::end_offset(s);
            &&& tokens.len() == starts.len() + 1
            &&& tokens.last().lexeme == Lexeme::plain(TokenType::TokenEof)
            &&& tokens.last().line == crate::lexer::grid::newlines_in(s.take(end))
            &&& tokens.last().col == end - crate::lexer::grid::line_start(s, end)
            &&& forall|i: int|
                0 <= i < starts.len() ==> {
                    &&& 0 <= #[trigger] starts[i] < s.len()
                    &&& !is_blank(s[starts[i]])
                    &&& tokens[i].line == crate::lexer::grid::newlines_in(s.take(starts[i]))
                    &&& tokens[i].col == starts[i] - crate::lexer::grid::line_start(s, starts[i])
                    &&& i + 1 < starts.len() ==> starts[i] < starts[i + 1]
                }
        },
{
    let q = crate::lexer::grid::stream(s);
    let end = crate::lexer::grid::end_offset(s);
    lemma_tokens_stand_at_their_starts(q, 0, crate::lexer::grid::end_position(s));
    crate::lexer::grid::lemma_grid_is_plain_scan(s, end);
    crate::lexer::grid::lemma_position_bounds(s, end);
    match tokens_of(s) {
        Ok(tokens) => {
            let starts = token_starts(s);
            assert forall|i: int| 0 <= i < starts.len() implies {
                &&& 0 <= #[trigger] starts[i] < s.len()
                &&& !is_blank(s[starts[i]])
                &&& tokens[i].line == crate::lexer::grid::newlines_in(s.take(starts[i]))
                &&& tokens[i].col == starts[i] - crate::lexer::grid::line_start(s, starts[i])
                &&& i + 1 < starts.len() ==> starts[i] < starts[i + 1]
            } by {
                crate::lexer::grid::lemma_stream_positions(s, starts[i]);
            }
        },
        Err(e) => {},
    }
}

} // verus!
