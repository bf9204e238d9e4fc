use hoars::lexer::token::Token as TypedToken;
use hoars::lexer::{HoaLexer, Token, TokenType};

const ALL: [TokenType; 31] = [
    TokenType::TokenInt,
    TokenType::TokenIdent,
    TokenType::TokenString,
    TokenType::TokenHeaderName,
    TokenType::TokenAliasName,
    TokenType::TokenEof,
    TokenType::TokenBody,
    TokenType::TokenEnd,
    TokenType::TokenAbort,
    TokenType::TokenHoa,
    TokenType::TokenState,
    TokenType::TokenStates,
    TokenType::TokenStart,
    TokenType::TokenAp,
    TokenType::TokenAlias,
    TokenType::TokenAcceptance,
    TokenType::TokenAccname,
    TokenType::TokenTool,
    TokenType::TokenName,
    TokenType::TokenProperties,
    TokenType::TokenNot,
    TokenType::TokenAnd,
    TokenType::TokenOr,
    TokenType::TokenLparenth,
    TokenType::TokenRparenth,
    TokenType::TokenLbracket,
    TokenType::TokenRbracket,
    TokenType::TokenLcurly,
    TokenType::TokenRcurly,
    TokenType::TokenTrue,
    TokenType::TokenFalse,
];

#[test]
fn names_of_the_categories() {
    let names: Vec<String> = ALL.iter().map(|k| Token::type_as_string(*k)).collect();
    assert_eq!(
        names,
        vec![
            "INT",
            "IDENT",
            "STRING",
            "HEADER_NAME",
            "ALIAS_NAME",
            "EOF",
            "BODY",
            "END",
            "ABORT",
            "HOA",
            "STATE",
            "STATES",
            "START",
            "AP",
            "ALIAS",
            "ACCEPTANCE",
            "ACCNAME",
            "TOOL",
            "NAME",
            "PROPERTIES",
            "NOT",
            "AND",
            "OR",
            "LPARENTH",
            "RPARENTH",
            "LBRACHEKT",
            "RBRACKET",
            "LCURLY",
            "RCURLY",
            "TRUE",
            "FALSE"
        ]
    );
}

#[test]
fn raw_tokens_in_words() {
    assert_eq!(
        Token::new_with_int(TokenType::TokenInt, 0, 0, 42).to_string(),
        "INTEGER 42"
    );
    assert_eq!(
        Token::new_with_string(TokenType::TokenIdent, 0, 0, "Fin".to_string()).to_string(),
        "IDENTIFIER Fin"
    );
    assert_eq!(
        Token::new_with_string(TokenType::TokenString, 0, 0, "a b".to_string()).to_string(),
        "STRING a b"
    );
    assert_eq!(
        Token::new_with_string(TokenType::TokenHeaderName, 0, 0, "x:".to_string()).to_string(),
        "HEADER x:"
    );
    assert_eq!(
        Token::new_with_string(TokenType::TokenAliasName, 0, 0, "a".to_string()).to_string(),
        "ALIAS a"
    );
    let plain: Vec<String> = ALL[5..]
        .iter()
        .map(|k| Token::new(*k, 0, 0).to_string())
        .collect();
    assert_eq!(
        plain,
        vec![
            "END-OF-FILE",
            "--BODY--",
            "--END--",
            "--ABORT--",
            "HEADER HOA",
            "DEFINITION State",
            "HEADER States",
            "HEADER Start",
            "HEADER AP",
            "HEADER Alias",
            "HEADER Acceptance",
            "HEADER acc-name",
            "HEADER tool",
            "HEADER name",
            "HEADER properties",
            "!",
            "&",
            "|",
            "(",
            ")",
            "[",
            "]",
            "{",
            "}",
            "TRUE t",
            "FALSE f"
        ]
    );
    // a payload that is not there is written as 0 or as nothing
    assert_eq!(Token::new(TokenType::TokenInt, 0, 0).to_string(), "INTEGER 0");
    assert_eq!(Token::new(TokenType::TokenIdent, 0, 0).to_string(), "IDENTIFIER ");
}

fn typed_of(kind: TokenType) -> TypedToken {
    Token::new(kind, 0, 0).typed().token
}

#[test]
fn typed_tokens_as_written() {
    assert_eq!(TypedToken::TokenInt(17).to_string(), "17");
    assert_eq!(TypedToken::TokenIdent("Fin".to_string()).to_string(), "'Fin'");
    assert_eq!(TypedToken::TokenString("a b".to_string()).to_string(), "\"a b\"");
    assert_eq!(
        TypedToken::TokenHeaderName("x:".to_string()).to_string(),
        "HEADER(x:)"
    );
    assert_eq!(TypedToken::TokenAliasName("a".to_string()).to_string(), "@a");
    let plain: Vec<String> = ALL[5..].iter().map(|k| typed_of(*k).to_string()).collect();
    assert_eq!(
        plain,
        vec![
            "EOF",
            "--BODY--",
            "--END--",
            "--ABORT--",
            "HOA: ",
            "State: ",
            "States: ",
            "Start: ",
            "AP: ",
            "Alias: ",
            "Acceptance: ",
            "acc-name: ",
            "tool: ",
            "name: ",
            "properties: ",
            "!",
            "&",
            "|",
            "(",
            ")",
            "[",
            "]",
            "{",
            "}",
            "t",
            "f"
        ]
    );
}

#[test]
fn positioned_tokens_as_text() {
    assert_eq!(TypedToken::TokenInt(17).at(1, 2).to_string(), "INT(17) at 1,2");
    assert_eq!(
        TypedToken::TokenIdent("Fin".to_string()).at(3, 40).to_string(),
        "IDENT(Fin) at 3,40"
    );
    assert_eq!(
        TypedToken::TokenString("a b".to_string()).at(0, 0).to_string(),
        "STR(a b) at 0,0"
    );
    assert_eq!(
        TypedToken::TokenHeaderName("x:".to_string())
            .at(10, 11)
            .to_string(),
        "HEADER(x:) at 10,11"
    );
    assert_eq!(
        TypedToken::TokenAliasName("a".to_string()).at(5, 6).to_string(),
        "ALIAS(@a) at 5,6"
    );
    let plain: Vec<String> = ALL[5..]
        .iter()
        .map(|k| typed_of(*k).at(1, 2).to_string())
        .collect();
    assert_eq!(
        plain,
        vec![
            "EOF at 1, 2",
            "--BODY-- at 1, 2",
            "--END-- at 1, 2",
            "--ABORT-- at 1, 2",
            "HOA: at 1, 2",
            "State: at 1, 2",
            "States: at 1, 2",
            "Start: at 1, 2",
            "Ap: at 1, 2",
            "Alias: at 1, 2",
            "Acceptance: at 1, 2",
            "Accname: at 1, 2",
            "tool: at 1, 2",
            "name: at 1, 2",
            "properties: at 1, 2",
            "! at 1, 2",
            "& at 1, 2",
            "| at 1, 2",
            "( at 1, 2",
            ") at 1, 2",
            "[ at 1, 2",
            "] at 1, 2",
            "{ at 1, 2",
            "} at 1, 2",
            "t at 1, 2",
            "f at 1, 2"
        ]
    );
}

#[test]
fn kinds_of_typed_tokens() {
    for kind in ALL {
        assert_eq!(typed_of(kind).kind(), kind);
    }
    assert_eq!(TypedToken::TokenInt(5).unwrap_int(), 5);
    assert_eq!(TypedToken::TokenIdent("x".to_string()).unwrap_str(), "x");
    assert_eq!(TypedToken::TokenString("y".to_string()).unwrap_str(), "y");
}

#[test]
fn typing_keeps_the_payload_that_the_category_calls_for() {
    let tokens = HoaLexer::new(b"t 5 \"s\" x @a y: f").tokenize().unwrap();
    let typed: Vec<TypedToken> = tokens.iter().map(|t| t.typed().token).collect();
    assert_eq!(
        typed,
        vec![
            TypedToken::TokenTrue,
            TypedToken::TokenInt(5),
            TypedToken::TokenString("s".to_string()),
            TypedToken::TokenIdent("x".to_string()),
            TypedToken::TokenAliasName("a".to_string()),
            TypedToken::TokenHeaderName("y:".to_string()),
            TypedToken::TokenFalse,
            TypedToken::TokenEof,
        ]
    );
    let positioned = tokens[2].typed();
    assert_eq!((positioned.line, positioned.col), (0, 4));
    assert_eq!(tokens[1].number(), 5);
    assert_eq!(tokens[0].number(), 0);
    assert_eq!(tokens[2].text(), "s");
    assert_eq!(tokens[1].text(), "");
}
