use hoars::lexer::token::Token as TypedToken;
use hoars::lexer::{HoaLexer, LexerError, LexerErrorKind, Token, TokenType};

fn kinds(input: &str) -> Vec<TokenType> {
    HoaLexer::new(input.as_bytes())
        .tokenize()
        .unwrap()
        .iter()
        .map(|t| t.kind)
        .collect()
}

fn fault(input: &str) -> LexerError {
    HoaLexer::new(input.as_bytes()).tokenize().unwrap_err()
}

#[test]
fn new_lexer_test() {
    let contents = "HOA: v1\nStates: 2\n--BODY--\n--END--\n";
    let mut hl = HoaLexer::new(contents.as_bytes());
    let tokens = hl.tokenize();
    let it = hl.iterator_from(0, 0);
    for (c, _, _) in it.iter() {
        println!("{:?}", *c as char);
    }
    println!("{:#?}", tokens);
    assert_eq!(it.len(), contents.len());
    assert_eq!(tokens.unwrap().len(), 7);
}

#[test]
fn newlinetest() {
    let text = "asd\ndfkjdfj".to_string();
    let it = text.bytes();
    for b in it {
        println!("{:?}", char::from(b));
    }
    let lexer = HoaLexer::new(text.as_bytes());
    let annotated = lexer.iterator_from(0, 0);
    let bytes: Vec<u8> = annotated.iter().map(|item| item.0).collect();
    // every line is closed by a newline, the last one too
    assert_eq!(bytes, "asd\ndfkjdfj\n".as_bytes());
    assert_eq!(annotated.len(), 12);
    assert_eq!(annotated[3], (b'\n', 0, 3));
    assert_eq!(annotated[4], (b'd', 1, 0));
    assert_eq!(annotated[10], (b'j', 1, 6));
    assert_eq!(annotated[11], (b'\n', 1, 7));
}

#[test]
fn stream_closes_every_line() {
    let lexer = HoaLexer::new(b"ab\nc");
    assert_eq!(
        lexer.iterator_from(0, 1),
        vec![(b'b', 0, 1), (b'\n', 0, 2), (b'c', 1, 0), (b'\n', 1, 1)]
    );
    assert_eq!(
        lexer.iterator_from(0, 0),
        vec![(b'a', 0, 0), (b'b', 0, 1), (b'\n', 0, 2), (b'c', 1, 0), (b'\n', 1, 1)]
    );
    assert_eq!(lexer.iterator_from(1, 1), vec![(b'\n', 1, 1)]);
    assert_eq!(lexer.iterator_from(1, 2), vec![]);
    assert_eq!(lexer.iterator_annotated(), lexer.iterator_from(0, 0));
    // a line that has its newline gets no second one
    assert_eq!(
        HoaLexer::new(b"ab\n").iterator_from(0, 0),
        vec![(b'a', 0, 0), (b'b', 0, 1), (b'\n', 0, 2)]
    );
    assert_eq!(
        HoaLexer::new(b"a\n\n").iterator_from(0, 0),
        vec![(b'a', 0, 0), (b'\n', 0, 1), (b'\n', 1, 0)]
    );
    assert_eq!(HoaLexer::new(b"\n").iterator_from(0, 0), vec![(b'\n', 0, 0)]);
    // the empty input has no line
    assert_eq!(HoaLexer::new(b"").iterator_from(0, 0), vec![]);
}

#[test]
fn carriage_return_is_a_byte_of_its_line() {
    assert_eq!(
        HoaLexer::new(b"a\r\nb\r").iterator_from(0, 0),
        vec![
            (b'a', 0, 0),
            (b'\r', 0, 1),
            (b'\n', 0, 2),
            (b'b', 1, 0),
            (b'\r', 1, 1),
            (b'\n', 1, 2)
        ]
    );
    // a quoted string holds its bytes as they stand
    let tokens = HoaLexer::new(b"\"x\r\ny\" z").tokenize().unwrap();
    assert_eq!(tokens[0].string, Some("x\r\ny".to_string()));
    assert_eq!((tokens[1].line(), tokens[1].col()), (1, 3));
}

#[test]
fn simple_token_print_test() {
    let tkn = TypedToken::TokenAliasName("hallO".to_string());
    println!("{}", tkn.to_string());
    assert_eq!(tkn.to_string(), "@hallO");
}

#[test]
fn constructors_fill_the_record() {
    let t = Token::new(TokenType::TokenBody, 3, 4);
    assert_eq!(t.kind, TokenType::TokenBody);
    assert_eq!(t.string, None);
    assert_eq!(t.int, None);
    assert_eq!((t.line(), t.col()), (3, 4));
    let t = Token::new_with_string(TokenType::TokenIdent, 1, 2, "abc".to_string());
    assert_eq!(t.string, Some("abc".to_string()));
    assert_eq!(t.int, None);
    assert_eq!((t.line(), t.col()), (1, 2));
    let t = Token::new_with_int(TokenType::TokenInt, 5, 6, 77);
    assert_eq!(t.string, None);
    assert_eq!(t.int, Some(77));
    assert_eq!((t.line(), t.col()), (5, 6));
    assert!(!t.is_eof());
    assert_eq!(t.kind(), TokenType::TokenInt);
    assert_eq!(Token::new(TokenType::TokenBody, 3, 4).kind(), TokenType::TokenBody);
    assert!(Token::new(TokenType::TokenEof, 0, 0).is_eof());
}

#[test]
fn punctuation_and_positions() {
    let tokens = HoaLexer::new(b"! &\n |()\n[]{}").tokenize().unwrap();
    let expected = vec![
        Token::new(TokenType::TokenNot, 0, 0),
        Token::new(TokenType::TokenAnd, 0, 2),
        Token::new(TokenType::TokenOr, 1, 1),
        Token::new(TokenType::TokenLparenth, 1, 2),
        Token::new(TokenType::TokenRparenth, 1, 3),
        Token::new(TokenType::TokenLbracket, 2, 0),
        Token::new(TokenType::TokenRbracket, 2, 1),
        Token::new(TokenType::TokenLcurly, 2, 2),
        Token::new(TokenType::TokenRcurly, 2, 3),
        Token::new(TokenType::TokenEof, 2, 4),
    ];
    assert_eq!(tokens, expected);
}

#[test]
fn positions_match_a_plain_scan() {
    let text = "HOA: v1\n  States: 12 \"a b\"\n\n\t@x --BODY--\nt f_1\n";
    let tokens = HoaLexer::new(text.as_bytes()).tokenize().unwrap();
    let starts = ["HOA:", "v1", "States:", "12", "\"a b\"", "@x", "--BODY--", "t", "f_1"];
    assert_eq!(tokens.len(), starts.len() + 1);
    let mut from = 0;
    for (token, start) in tokens.iter().zip(starts.iter()) {
        let offset = from + text[from..].find(start).unwrap();
        let line = text[..offset].bytes().filter(|b| *b == b'\n').count();
        let col = offset - text[..offset].rfind('\n').map(|i| i + 1).unwrap_or(0);
        assert_eq!((token.line(), token.col()), (line, col));
        from = offset + start.len();
    }
    let eof = tokens.last().unwrap();
    assert!(eof.is_eof());
    assert_eq!((eof.line(), eof.col()), (4, 5));
}

#[test]
fn end_of_input_marker_position() {
    let eof = |text: &str| {
        let mut lexer = HoaLexer::new(text.as_bytes());
        let tokens = lexer.tokenize().unwrap();
        let t = tokens.last().unwrap();
        assert!(t.is_eof());
        assert_eq!(lexer.end_position(), (t.line(), t.col()));
        (t.line(), t.col())
    };
    assert_eq!(eof(""), (0, 0));
    assert_eq!(eof("a"), (0, 1));
    assert_eq!(eof("a\n"), (0, 1));
    assert_eq!(eof("a\r\n"), (0, 1));
    assert_eq!(eof("a\n\n"), (1, 0));
    assert_eq!(eof("a\nbc"), (1, 2));
    assert_eq!(eof("\n"), (0, 0));
}

#[test]
fn markers() {
    assert_eq!(
        kinds("--BODY-- --END-- --ABORT--"),
        vec![
            TokenType::TokenBody,
            TokenType::TokenEnd,
            TokenType::TokenAbort,
            TokenType::TokenEof
        ]
    );
    assert_eq!(kinds("--END--"), vec![TokenType::TokenEnd, TokenType::TokenEof]);
}

#[test]
fn marker_errors() {
    assert_eq!(fault("-x").kind, LexerErrorKind::MissingDash);
    assert_eq!(fault("-").kind, LexerErrorKind::MissingDash);
    assert_eq!(fault("--").kind, LexerErrorKind::UnknownMarker);
    assert_eq!(fault("--X--").kind, LexerErrorKind::UnknownMarker);
    assert_eq!(fault("--ABORT-").kind, LexerErrorKind::ExpectedAbort);
    assert_eq!(fault("--ABORD--").kind, LexerErrorKind::ExpectedAbort);
    assert_eq!(fault("--BODY").kind, LexerErrorKind::ExpectedBody);
    assert_eq!(fault("--BUDY--").kind, LexerErrorKind::ExpectedBody);
    assert_eq!(fault("--EN").kind, LexerErrorKind::ExpectedEnd);
    assert_eq!(fault("--ENT--").kind, LexerErrorKind::ExpectedEnd);
    assert_eq!(
        fault("\n  --X--"),
        LexerError {
            kind: LexerErrorKind::UnknownMarker,
            line: 1,
            col: 2
        }
    );
}

#[test]
fn quoted_strings() {
    let tokens = HoaLexer::new(b"\"a U b\" \"\" \"x\ny\"").tokenize().unwrap();
    assert_eq!(
        tokens,
        vec![
            Token::new_with_string(TokenType::TokenString, 0, 0, "a U b".to_string()),
            Token::new_with_string(TokenType::TokenString, 0, 8, "".to_string()),
            Token::new_with_string(TokenType::TokenString, 0, 11, "x\ny".to_string()),
            Token::new(TokenType::TokenEof, 1, 2),
        ]
    );
}

#[test]
fn escaped_quote_does_not_close_a_string() {
    let tokens = HoaLexer::new(b"\"a\\\"b\" 1").tokenize().unwrap();
    assert_eq!(tokens.len(), 3);
    assert_eq!(tokens[0].kind, TokenType::TokenString);
    assert_eq!(tokens[0].string, Some("a\\\"b".to_string()));
    assert_eq!(tokens[1].int, Some(1));
    let tokens = HoaLexer::new(b"\"a\\\\\" 1").tokenize().unwrap();
    assert_eq!(tokens[0].string, Some("a\\\\".to_string()));
    assert_eq!(tokens[1].int, Some(1));
}

#[test]
fn unterminated_strings() {
    assert_eq!(fault("\"abc").kind, LexerErrorKind::UnterminatedString);
    assert_eq!(fault("\"").kind, LexerErrorKind::UnterminatedString);
    assert_eq!(fault("\"abc\\\"").kind, LexerErrorKind::UnterminatedString);
    assert_eq!(fault("\"abc\\").kind, LexerErrorKind::UnterminatedString);
    assert_eq!(
        fault("1 \"abc"),
        LexerError {
            kind: LexerErrorKind::UnterminatedString,
            line: 0,
            col: 2
        }
    );
}

#[test]
fn integers() {
    let tokens = HoaLexer::new(b"0 12 007 4x").tokenize().unwrap();
    assert_eq!(
        tokens,
        vec![
            Token::new_with_int(TokenType::TokenInt, 0, 0, 0),
            Token::new_with_int(TokenType::TokenInt, 0, 2, 12),
            Token::new_with_int(TokenType::TokenInt, 0, 5, 7),
            Token::new_with_int(TokenType::TokenInt, 0, 9, 4),
            Token::new_with_string(TokenType::TokenIdent, 0, 10, "x".to_string()),
            Token::new(TokenType::TokenEof, 0, 11),
        ]
    );
    let max = format!("{}", usize::MAX);
    let tokens = HoaLexer::new(max.as_bytes()).tokenize().unwrap();
    assert_eq!(tokens[0].int, Some(usize::MAX));
}

#[test]
fn integer_overflow_is_an_error() {
    let too_large = format!("{}0", usize::MAX);
    assert_eq!(fault(&too_large).kind, LexerErrorKind::InvalidInteger);
    let one_more = format!("{}", usize::MAX as u128 + 1);
    assert_eq!(fault(&one_more).kind, LexerErrorKind::InvalidInteger);
    assert_eq!(
        fault("99999999999999999999999999999999999999999999").kind,
        LexerErrorKind::InvalidInteger
    );
}

#[test]
fn alias_names() {
    let tokens = HoaLexer::new(b"@a @a-b_1 @ @x:").tokenize();
    assert_eq!(
        tokens.unwrap_err().kind,
        LexerErrorKind::UnrecognizedCharacter
    );
    let tokens = HoaLexer::new(b"@a @a-b_1 @ ").tokenize().unwrap();
    assert_eq!(
        tokens,
        vec![
            Token::new_with_string(TokenType::TokenAliasName, 0, 0, "a".to_string()),
            Token::new_with_string(TokenType::TokenAliasName, 0, 3, "a-b_1".to_string()),
            Token::new_with_string(TokenType::TokenAliasName, 0, 10, "".to_string()),
            Token::new(TokenType::TokenEof, 0, 12),
        ]
    );
}

#[test]
fn header_keywords() {
    assert_eq!(
        kinds(
            "HOA: State: States: Start: AP: Alias: Acceptance: acc-name: tool: name: properties:"
        ),
        vec![
            TokenType::TokenHoa,
            TokenType::TokenState,
            TokenType::TokenStates,
            TokenType::TokenStart,
            TokenType::TokenAp,
            TokenType::TokenAlias,
            TokenType::TokenAcceptance,
            TokenType::TokenAccname,
            TokenType::TokenTool,
            TokenType::TokenName,
            TokenType::TokenProperties,
            TokenType::TokenEof,
        ]
    );
    let tokens = HoaLexer::new(b"HOA:").tokenize().unwrap();
    assert_eq!(tokens[0], Token::new(TokenType::TokenHoa, 0, 0));
}

#[test]
fn unknown_headers_keep_their_text() {
    let tokens = HoaLexer::new(b"spot-x: hoa: Acceptance").tokenize().unwrap();
    assert_eq!(
        tokens,
        vec![
            Token::new_with_string(TokenType::TokenHeaderName, 0, 0, "spot-x:".to_string()),
            Token::new_with_string(TokenType::TokenHeaderName, 0, 8, "hoa:".to_string()),
            Token::new_with_string(TokenType::TokenIdent, 0, 13, "Acceptance".to_string()),
            Token::new(TokenType::TokenEof, 0, 23),
        ]
    );
}

#[test]
fn identifiers_and_literals() {
    let tokens = HoaLexer::new(b"t f tt _x Fin a:b").tokenize().unwrap();
    assert_eq!(
        tokens,
        vec![
            Token::new_with_string(TokenType::TokenTrue, 0, 0, "t".to_string()),
            Token::new_with_string(TokenType::TokenFalse, 0, 2, "f".to_string()),
            Token::new_with_string(TokenType::TokenIdent, 0, 4, "tt".to_string()),
            Token::new_with_string(TokenType::TokenIdent, 0, 7, "_x".to_string()),
            Token::new_with_string(TokenType::TokenIdent, 0, 10, "Fin".to_string()),
            Token::new_with_string(TokenType::TokenIdent, 0, 14, "a:b".to_string()),
            Token::new(TokenType::TokenEof, 0, 17),
        ]
    );
}

#[test]
fn unrecognized_bytes() {
    assert_eq!(
        fault("a /* c */"),
        LexerError {
            kind: LexerErrorKind::UnrecognizedCharacter,
            line: 0,
            col: 2
        }
    );
    assert_eq!(fault("#").kind, LexerErrorKind::UnrecognizedCharacter);
    assert_eq!(
        HoaLexer::new(&[0xC3, 0xA0]).tokenize().unwrap_err().kind,
        LexerErrorKind::UnrecognizedCharacter
    );
    assert_eq!(
        HoaLexer::new(&[0xA0]).tokenize().unwrap_err().kind,
        LexerErrorKind::UnrecognizedCharacter
    );
}

#[test]
fn whitespace_is_skipped() {
    assert_eq!(
        kinds(" \t\r\n\x0b\x0c ! "),
        vec![TokenType::TokenNot, TokenType::TokenEof]
    );
    assert_eq!(kinds("   "), vec![TokenType::TokenEof]);
    assert_eq!(kinds(""), vec![TokenType::TokenEof]);
}

#[test]
fn tokenize_leaves_the_lexer_as_it_is() {
    let mut lexer = HoaLexer::new(b"a b");
    let first = lexer.tokenize().unwrap();
    let second = lexer.tokenize().unwrap();
    assert_eq!(first, second);
    assert_eq!(lexer.input().as_slice(), b"a b");
}

#[test]
fn iterator_from_filters_by_position() {
    let lexer = HoaLexer::new(b"ab\ncd\n");
    assert_eq!(
        lexer.iterator_annotated(),
        vec![
            (b'a', 0, 0),
            (b'b', 0, 1),
            (b'\n', 0, 2),
            (b'c', 1, 0),
            (b'd', 1, 1),
            (b'\n', 1, 2)
        ]
    );
    assert_eq!(
        lexer.iterator_from(0, 1),
        vec![(b'b', 0, 1), (b'\n', 0, 2), (b'c', 1, 0), (b'd', 1, 1), (b'\n', 1, 2)]
    );
    assert_eq!(
        lexer.iterator_from(0, 2),
        vec![(b'\n', 0, 2), (b'c', 1, 0), (b'd', 1, 1), (b'\n', 1, 2)]
    );
    assert_eq!(lexer.iterator_from(1, 1), vec![(b'd', 1, 1), (b'\n', 1, 2)]);
    assert_eq!(lexer.iterator_from(1, 3), vec![]);
    assert_eq!(lexer.iterator_from(2, 0), vec![]);
}

#[test]
fn next_token_walks_through_the_input() {
    let mut lexer = HoaLexer::new(b"HOA: v1\n--BODY--");
    assert_eq!(lexer.next_token().unwrap(), Token::new(TokenType::TokenHoa, 0, 0));
    assert_eq!(
        lexer.next_token().unwrap(),
        Token::new_with_string(TokenType::TokenIdent, 0, 5, "v1".to_string())
    );
    assert_eq!(lexer.next_token().unwrap(), Token::new(TokenType::TokenBody, 1, 0));
    assert_eq!(lexer.next_token().unwrap(), Token::new(TokenType::TokenEof, 1, 8));
    assert_eq!(lexer.next_token().unwrap(), Token::new(TokenType::TokenEof, 1, 8));
}

#[test]
fn next_token_stays_at_a_malformed_token() {
    let mut lexer = HoaLexer::new(b"a #");
    assert!(lexer.next_token().is_ok());
    let e = lexer.next_token().unwrap_err();
    assert_eq!(
        e,
        LexerError {
            kind: LexerErrorKind::UnrecognizedCharacter,
            line: 0,
            col: 2
        }
    );
    assert_eq!(lexer.next_token().unwrap_err(), e);
}

#[test]
fn lexer_error_messages() {
    assert_eq!(
        fault("\n -x").to_string(),
        "tokens need two dashes (--) at line 1, column 1"
    );
    assert_eq!(
        LexerErrorKind::UnterminatedString.message(),
        "premature end of file in quoted string"
    );
    assert_eq!(
        LexerErrorKind::InvalidInteger.message(),
        "error while parsing integer"
    );
    assert_eq!(
        LexerErrorKind::UnknownMarker.message(),
        "unexpected token, can be ABORT, BODY and END"
    );
    assert_eq!(
        LexerErrorKind::ExpectedAbort.message(),
        "unrecognized token, expected ABORT"
    );
    assert_eq!(
        LexerErrorKind::ExpectedBody.message(),
        "unrecognized token, expected BODY"
    );
    assert_eq!(
        LexerErrorKind::ExpectedEnd.message(),
        "unrecognized token, expected END"
    );
    assert_eq!(
        LexerErrorKind::UnrecognizedCharacter.message(),
        "unrecognized character"
    );
}

#[test]
fn reading_token_by_token_gives_the_tokens() {
    for text in [
        "HOA: v1\nStates: 2\nStart: 0\nAP: 1 \"a\"\n--BODY--\nState: 0 [0] 0 {0}\n--END--\n",
        "a",
        "",
        "  \n\n",
        "@x&!y|(t) \"s\\\"\" 12\r\n",
        "x --BODY--",
    ] {
        let all = HoaLexer::new(text.as_bytes()).tokenize().unwrap();
        let mut lexer = HoaLexer::new(text.as_bytes());
        let mut read = Vec::new();
        loop {
            let token = lexer.next_token().unwrap();
            let done = token.is_eof();
            read.push(token);
            if done {
                break;
            }
        }
        assert_eq!(read, all);
    }
    let mut lexer = HoaLexer::new(b"a b $ c");
    assert!(lexer.next_token().is_ok());
    assert!(lexer.next_token().is_ok());
    assert_eq!(
        lexer.next_token().unwrap_err(),
        HoaLexer::new(b"a b $ c").tokenize().unwrap_err()
    );
}
