//! Reading one token off the stream of annotated bytes.

use vstd::prelude::*;
use crate::lexer::grammar;
use crate::lexer::grammar::Run;
use crate::lexer::stream;
use crate::lexer::stream::{Item, Stream};
use crate::lexer::{LexerError, LexerErrorKind, Token, TokenType};
use crate::text::{is_text, text_of};

verus! {

/// The header keywords as the scanner holds them.
pub type Keywords = Vec<(String, TokenType)>;

/// The texts and categories of a table of keywords.
pub open spec fn keywords_view(table: Seq<(String, TokenType)>) -> Seq<(Seq<char>, TokenType)> {
    table.map_values(|entry: (String, TokenType)| (entry.0@, entry.1))
}

/// Whether a call that was to read the token at offset `k` of `q` did so: it
/// returns the token and leaves the stream behind it, or returns the error of
/// a malformed token.
pub open spec fn reads(
    result: Result<Token, LexerError>,
    after: Stream,
    q: Seq<Item>,
    expected: Result<grammar::Scan, LexerError>,
) -> bool {
    match expected {
        Ok(scan) => {
            &&& result matches Ok(token)
            &&& token@ == scan.token
            &&& stream::pending(after) == q.skip(scan.next)
            &&& stream::peeked(after) == 0
        },
        Err(e) => result == Err::<Token, LexerError>(e),
    }
}

/// Whether a byte is blank.
pub(crate) fn is_blank(b: u8) -> (blank: bool)
    ensures
        blank == grammar::is_blank(b),
{
    b == 32 || (9 <= b && b <= 13)
}

/// Whether a byte belongs to a run of the given kind.
pub(crate) fn in_run(run: Run, b: u8) -> (belongs: bool)
    ensures
        belongs == run.has(b),
{
    let letter = (65 <= b && b <= 90) || (97 <= b && b <= 122);
    let digit = 48 <= b && b <= 57;
    match run {
        Run::Digits => digit,
        Run::Name => letter || digit || b == grammar::UNDERSCORE || b == grammar::DASH,
        Run::Word => letter || digit || b == grammar::UNDERSCORE || b == grammar::DASH || b
            == grammar::COLON,
    }
}

/// The category of a byte that is a token by itself.
pub(crate) fn punctuation(b: u8) -> (kind: Option<TokenType>)
    ensures
        kind == grammar::punctuation(b),
{
    if b == 33 {
        // !
        Some(TokenType::TokenNot)
    } else if b == 38 {
        // &
        Some(TokenType::TokenAnd)
    } else if b == 124 {
        // |
        Some(TokenType::TokenOr)
    } else if b == 40 {
        // (
        Some(TokenType::TokenLparenth)
    } else if b == 41 {
        // )
        Some(TokenType::TokenRparenth)
    } else if b == 91 {
        // [
        Some(TokenType::TokenLbracket)
    } else if b == 93 {
        // ]
        Some(TokenType::TokenRbracket)
    } else if b == 123 {
        // {
        Some(TokenType::TokenLcurly)
    } else if b == 125 {
        // }
        Some(TokenType::TokenRcurly)
    } else {
        None
    }
}

/// Whether two vectors hold the same bytes.
pub(crate) fn same_bytes(a: &Vec<u8>, b: &Vec<u8>) -> (same: bool)
    ensures
        same == (a@ == b@),
{
    if a.len() != b.len() {
        return false;
    }
    let mut i: usize = 0;
    while i < a.len()
        invariant
            i <= a.len(),
            a.len() == b.len(),
            a@.take(i as int) == b@.take(i as int),
        decreases a.len() - i,
    {
        if a[i] != b[i] {
            return false;
        }
        assert(a@.take(i + 1) =~= a@.take(i as int).push(a@[i as int]));
        assert(b@.take(i + 1) =~= b@.take(i as int).push(b@[i as int]));
        i = i + 1;
    }
    assert(a@.take(i as int) =~= a@);
    assert(b@.take(i as int) =~= b@);
    true
}

/// The value of a run of digits, `None` where it does not fit.
pub(crate) fn number_of(digits: &Vec<u8>) -> (value: Option<usize>)
    requires
        forall|i: int| 0 <= i < digits.len() ==> grammar::is_digit(#[trigger] digits[i]),
    ensures
        match value {
            Some(v) => v == grammar::decimal_value(digits@),
            None => grammar::decimal_value(digits@) > usize::MAX,
        },
{
    let mut value: usize = 0;
    let mut i: usize = 0;
    while i < digits.len()
        invariant
            i <= digits.len(),
            value == grammar::decimal_value(digits@.take(i as int)),
            forall|i: int| 0 <= i < digits.len() ==> grammar::is_digit(#[trigger] digits[i]),
        decreases digits.len() - i,
    {
        let digit: usize = (digits[i] - 48) as usize;
        proof {
            assert(digits@.take(i + 1).drop_last() =~= digits@.take(i as int));
            grammar::lemma_decimal_value_grows(digits@, i + 1);
        }
        let tens = match value.checked_mul(10) {
            Some(tens) => tens,
            None => {
                return None;
            },
        };
        value = match tens.checked_add(digit) {
            Some(sum) => sum,
            None => {
                return None;
            },
        };
        i = i + 1;
    }
    assert(digits@.take(i as int) =~= digits@);
    Some(value)
}

/// The category that a table of keywords gives to a text.
pub(crate) fn lookup(table: &Keywords, text: &String) -> (kind: Option<TokenType>)
    ensures
        kind == grammar::keyword_from(keywords_view(table@), text@, 0),
{
    let mut i: usize = 0;
    while i < table.len()
        invariant
            i <= table.len(),
            grammar::keyword_from(keywords_view(table@), text@, 0) == grammar::keyword_from(
                keywords_view(table@),
                text@,
                i as int,
            ),
        decreases table.len() - i,
    {
        if table[i].0 == *text {
            return Some(table[i].1);
        }
        i = i + 1;
    }
    None
}

/// Takes the blank bytes from offset `k` on out of the stream and returns the
/// first item behind them, which stays in the stream.
pub(crate) fn skip_whitespace(stream: &mut Stream, Ghost(q): Ghost<Seq<Item>>, Ghost(k): Ghost<int>)
    -> (first: Option<Item>)
    requires
        0 <= k <= q.len(),
        stream::pending(*old(stream)) == q.skip(k),
        stream::peeked(*old(stream)) == 0,
    ensures
        stream::pending(*final(stream)) == q.skip(grammar::skip_blanks(q, k)),
        stream::peeked(*final(stream)) == 0,
        grammar::skip_blanks(q, k) < q.len() ==> first == Some(q[grammar::skip_blanks(q, k)]),
        grammar::skip_blanks(q, k) >= q.len() ==> first.is_none(),
{
    let ghost mut at: int = k;
    loop
        invariant
            0 <= k <= at <= q.len(),
            stream::pending(*stream) == q.skip(at),
            stream::peeked(*stream) == 0,
            grammar::skip_blanks(q, k) == grammar::skip_blanks(q, at),
        decreases q.len() - at,
    {
        let first = stream::peek(stream);
        stream::reset_peek(stream);
        match first {
            Some((b, _, _)) => {
                if !is_blank(b) {
                    return first;
                }
            },
            None => {
                return first;
            },
        }
        let _ = stream::next(stream);
        assert(q.skip(at).skip(1) =~= q.skip(at + 1));
        proof {
            at = at + 1;
        }
    }
}

/// Looks ahead over the run that starts at offset `k` and returns its bytes.
/// Nothing is taken out of the stream.
pub(crate) fn peek_run(stream: &mut Stream, run: Run, Ghost(q): Ghost<Seq<Item>>, Ghost(k): Ghost<int>)
    -> (bytes: Vec<u8>)
    requires
        0 <= k <= q.len(),
        stream::pending(*old(stream)) == q.skip(k),
        stream::peeked(*old(stream)) == 0,
    ensures
        stream::pending(*final(stream)) == q.skip(k),
        bytes@ == grammar::bytes_between(q, k, grammar::run_end(q, k, run)),
        bytes.len() == grammar::run_end(q, k, run) - k,
        forall|i: int| 0 <= i < bytes.len() ==> run.has(#[trigger] bytes[i]),
{
    let mut bytes: Vec<u8> = Vec::new();
    loop
        invariant
            0 <= k <= q.len(),
            k + bytes.len() <= q.len(),
            stream::pending(*stream) == q.skip(k),
            stream::peeked(*stream) == bytes.len(),
            bytes@ == grammar::bytes_between(q, k, k + bytes.len()),
            grammar::run_end(q, k, run) == grammar::run_end(q, k + bytes.len(), run),
            forall|i: int| 0 <= i < bytes.len() ==> run.has(#[trigger] bytes[i]),
        decreases q.len() - k - bytes.len(),
    {
        match stream::peek(stream) {
            Some((b, _, _)) => {
                if in_run(run, b) {
                    bytes.push(b);
                    assert(bytes@ =~= grammar::bytes_between(q, k, k + bytes.len()));
                } else {
                    return bytes;
                }
            },
            None => {
                return bytes;
            },
        }
    }
}

/// Reads the marker that starts with the dash at offset `k`.
pub(crate) fn scan_marker(
    stream: &mut Stream,
    line: usize,
    col: usize,
    Ghost(q): Ghost<Seq<Item>>,
    Ghost(k): Ghost<int>,
) -> (result: Result<Token, LexerError>)
    requires
        0 <= k < q.len(),
        q[k] == (grammar::DASH, line, col),
        stream::pending(*old(stream)) == q.skip(k),
        stream::peeked(*old(stream)) == 0,
    ensures
        reads(result, *final(stream), q, grammar::scan_marker(q, k)),
{
    let _ = stream::next(stream);
    assert(q.skip(k).skip(1) =~= q.skip(k + 1));
    match stream::next(stream) {
        Some((b, _, _)) => {
            if b != grammar::DASH {
                return Err(LexerError { kind: LexerErrorKind::MissingDash, line, col });
            }
        },
        None => {
            return Err(LexerError { kind: LexerErrorKind::MissingDash, line, col });
        },
    }
    assert(q.skip(k + 1).skip(1) =~= q.skip(k + 2));
    let letter = match stream::next(stream) {
        Some((b, _, _)) => b,
        None => {
            return Err(LexerError { kind: LexerErrorKind::UnknownMarker, line, col });
        },
    };
    assert(q.skip(k + 2).skip(1) =~= q.skip(k + 3));
    let (tail, kind, fault) = if letter == 65 {
        // A
        (abort_tail(), TokenType::TokenAbort, LexerErrorKind::ExpectedAbort)
    } else if letter == 66 {
        // B
        (body_tail(), TokenType::TokenBody, LexerErrorKind::ExpectedBody)
    } else if letter == 69 {
        // E
        (end_tail(), TokenType::TokenEnd, LexerErrorKind::ExpectedEnd)
    } else {
        return Err(LexerError { kind: LexerErrorKind::UnknownMarker, line, col });
    };
    match stream::take_n(stream, tail.len()) {
        Some(word) => {
            assert(word@ =~= grammar::bytes_between(q, k + 3, k + 3 + tail.len()));
            assert(q.skip(k + 3).skip(tail.len() as int) =~= q.skip(k + 3 + tail.len()));
            if same_bytes(&word, &tail) {
                Ok(Token::new(kind, line, col))
            } else {
                Err(LexerError { kind: fault, line, col })
            }
        },
        None => Err(LexerError { kind: fault, line, col }),
    }
}

/// Reads the quoted string that starts with the quote at offset `k`.
pub(crate) fn scan_string(
    stream: &mut Stream,
    line: usize,
    col: usize,
    Ghost(q): Ghost<Seq<Item>>,
    Ghost(k): Ghost<int>,
) -> (result: Result<Token, LexerError>)
    requires
        0 <= k < q.len(),
        q[k] == (grammar::QUOTE, line, col),
        stream::pending(*old(stream)) == q.skip(k),
        stream::peeked(*old(stream)) == 0,
    ensures
        reads(result, *final(stream), q, grammar::scan(q, k)),
{
    let _ = stream::next(stream);
    assert(q.skip(k).skip(1) =~= q.skip(k + 1));
    let mut content: Vec<u8> = Vec::new();
    let ghost mut j: int = k + 1;
    assert(content@ =~= grammar::bytes_between(q, k + 1, j));
    loop
        invariant
            0 <= k < q.len(),
            q[k] == (grammar::QUOTE, line, col),
            k + 1 <= j <= q.len(),
            stream::pending(*stream) == q.skip(j),
            stream::peeked(*stream) == 0,
            grammar::string_end(q, k + 1) == grammar::string_end(q, j),
            content@ == grammar::bytes_between(q, k + 1, j),
        decreases q.len() - j,
    {
        let b = match stream::next(stream) {
            Some((b, _, _)) => b,
            None => {
                return Err(LexerError { kind: LexerErrorKind::UnterminatedString, line, col });
            },
        };
        assert(q.skip(j).skip(1) =~= q.skip(j + 1));
        if b == grammar::QUOTE {
            return Ok(Token::new_with_string(TokenType::TokenString, line, col, text_of(&content)));
        }
        content.push(b);
        if b == grammar::BACKSLASH {
            let c = match stream::next(stream) {
                Some((c, _, _)) => c,
                None => {
                    return Err(
                        LexerError { kind: LexerErrorKind::UnterminatedString, line, col },
                    );
                },
            };
            assert(q.skip(j + 1).skip(1) =~= q.skip(j + 2));
            content.push(c);
            proof {
                j = j + 2;
            }
        } else {
            proof {
                j = j + 1;
            }
        }
        assert(content@ =~= grammar::bytes_between(q, k + 1, j));
    }
}

/// Reads the integer that starts with the digit at offset `k`.
pub(crate) fn scan_number(
    stream: &mut Stream,
    line: usize,
    col: usize,
    Ghost(q): Ghost<Seq<Item>>,
    Ghost(k): Ghost<int>,
) -> (result: Result<Token, LexerError>)
    requires
        0 <= k < q.len(),
        q[k].1 == line,
        q[k].2 == col,
        grammar::is_digit(q[k].0),
        stream::pending(*old(stream)) == q.skip(k),
        stream::peeked(*old(stream)) == 0,
    ensures
        reads(result, *final(stream), q, grammar::scan(q, k)),
{
    let digits = peek_run(stream, Run::Digits, Ghost(q), Ghost(k));
    // only peeked at so far: now take the digits out of the stream
    stream::advance_by(stream, digits.len());
    proof {
        grammar::lemma_run_end(q, k, Run::Digits);
        assert(q.skip(k).skip(digits.len() as int) =~= q.skip(k + digits.len()));
    }
    match number_of(&digits) {
        Some(num) => Ok(Token::new_with_int(TokenType::TokenInt, line, col, num)),
        None => Err(LexerError { kind: LexerErrorKind::InvalidInteger, line, col }),
    }
}

/// Reads the alias name that starts with the `@` at offset `k`.
pub(crate) fn scan_alias(
    stream: &mut Stream,
    line: usize,
    col: usize,
    Ghost(q): Ghost<Seq<Item>>,
    Ghost(k): Ghost<int>,
) -> (result: Result<Token, LexerError>)
    requires
        0 <= k < q.len(),
        q[k] == (grammar::AT, line, col),
        stream::pending(*old(stream)) == q.skip(k),
        stream::peeked(*old(stream)) == 0,
    ensures
        reads(result, *final(stream), q, grammar::scan(q, k)),
{
    // skip the @
    let _ = stream::next(stream);
    assert(q.skip(k).skip(1) =~= q.skip(k + 1));
    let name = peek_run(stream, Run::Name, Ghost(q), Ghost(k + 1));
    stream::advance_by(stream, name.len());
    proof {
        grammar::lemma_run_end(q, k + 1, Run::Name);
        assert(q.skip(k + 1).skip(name.len() as int) =~= q.skip(k + 1 + name.len()));
    }
    Ok(Token::new_with_string(TokenType::TokenAliasName, line, col, text_of(&name)))
}

/// Reads the identifier, the literal or the header keyword that starts at offset `k`.
pub(crate) fn scan_word(
    stream: &mut Stream,
    line: usize,
    col: usize,
    known_headers: &Keywords,
    Ghost(q): Ghost<Seq<Item>>,
    Ghost(k): Ghost<int>,
) -> (result: Result<Token, LexerError>)
    requires
        0 <= k < q.len(),
        q[k].1 == line,
        q[k].2 == col,
        grammar::is_letter(q[k].0) || q[k].0 == grammar::UNDERSCORE,
        keywords_view(known_headers@) == grammar::header_keywords(),
        stream::pending(*old(stream)) == q.skip(k),
        stream::peeked(*old(stream)) == 0,
    ensures
        reads(result, *final(stream), q, grammar::scan_word(q, k)),
{
    let word = peek_run(stream, Run::Word, Ghost(q), Ghost(k));
    stream::advance_by(stream, word.len());
    proof {
        grammar::lemma_run_end(q, k, Run::Word);
        assert(q.skip(k).skip(word.len() as int) =~= q.skip(k + word.len()));
    }
    let buffer = text_of(&word);
    // a header ends in a colon
    if word[word.len() - 1] == grammar::COLON {
        match lookup(known_headers, &buffer) {
            Some(tokentype) => Ok(Token::new(tokentype, line, col)),
            None => Ok(Token::new_with_string(TokenType::TokenHeaderName, line, col, buffer)),
        }
    } else if is_text(&buffer, "t") {
        Ok(Token::new_with_string(TokenType::TokenTrue, line, col, buffer))
    } else if is_text(&buffer, "f") {
        Ok(Token::new_with_string(TokenType::TokenFalse, line, col, buffer))
    } else {
        Ok(Token::new_with_string(TokenType::TokenIdent, line, col, buffer))
    }
}

/// Reads the token that starts at offset `k`, where a byte stands that is not blank.
pub(crate) fn scan_token(
    stream: &mut Stream,
    first: Item,
    known_headers: &Keywords,
    Ghost(q): Ghost<Seq<Item>>,
    Ghost(k): Ghost<int>,
) -> (result: Result<Token, LexerError>)
    requires
        0 <= k < q.len(),
        q[k] == first,
        keywords_view(known_headers@) == grammar::header_keywords(),
        stream::pending(*old(stream)) == q.skip(k),
        stream::peeked(*old(stream)) == 0,
    ensures
        reads(result, *final(stream), q, grammar::scan(q, k)),
{
    let (c, line, col) = first;
    match punctuation(c) {
        Some(kind) => {
            let _ = stream::next(stream);
            assert(q.skip(k).skip(1) =~= q.skip(k + 1));
            return Ok(Token::new(kind, line, col));
        },
        None => {},
    }
    if c == grammar::DASH {
        scan_marker(stream, line, col, Ghost(q), Ghost(k))
    } else if c == grammar::QUOTE {
        scan_string(stream, line, col, Ghost(q), Ghost(k))
    } else if in_run(Run::Digits, c) {
        scan_number(stream, line, col, Ghost(q), Ghost(k))
    } else if c == grammar::AT {
        scan_alias(stream, line, col, Ghost(q), Ghost(k))
    } else if (65 <= c && c <= 90) || (97 <= c && c <= 122) || c == grammar::UNDERSCORE {
        scan_word(stream, line, col, known_headers, Ghost(q), Ghost(k))
    } else {
        Err(LexerError { kind: LexerErrorKind::UnrecognizedCharacter, line, col })
    }
}

/// `BORT--`, what follows `--A` in `--ABORT--`.
pub(crate) fn abort_tail() -> (tail: Vec<u8>)
    ensures
        tail@ == grammar::abort_tail(),
{
    let tail: Vec<u8> = vec![66u8, 79u8, 82u8, 84u8, 45u8, 45u8];
    assert(tail@ =~= grammar::abort_tail());
    tail
}

/// `ODY--`, what follows `--B` in `--BODY--`.
pub(crate) fn body_tail() -> (tail: Vec<u8>)
    ensures
        tail@ == grammar::body_tail(),
{
    let tail: Vec<u8> = vec![79u8, 68u8, 89u8, 45u8, 45u8];
    assert(tail@ =~= grammar::body_tail());
    tail
}

/// `ND--`, what follows `--E` in `--END--`.
pub(crate) fn end_tail() -> (tail: Vec<u8>)
    ensures
        tail@ == grammar::end_tail(),
{
    let tail: Vec<u8> = vec![78u8, 68u8, 45u8, 45u8];
    assert(tail@ =~= grammar::end_tail());
    tail
}

} // verus!
