//! Token categories and the raw token records the scanner emits.

use vstd::prelude::*;
use crate::lexer::scanner::{is_blank, scan_token, skip_whitespace, Keywords};
use crate::lexer::stream::Item;
use crate::text::owned;

pub mod grammar;
pub mod grid;
pub mod reading;
pub mod scanner;
pub mod stream;
pub mod token;

verus! {

/// The lexical categories of the format.
#[derive(Debug, Clone, Copy, PartialEq, Eq, Structural)]
pub enum TokenType {
    TokenInt,
    TokenIdent,
    TokenString,
    TokenHeaderName,
    TokenAliasName,
    TokenEof,
    TokenBody,
    TokenEnd,
    TokenAbort,
    TokenHoa,
    TokenState,
    TokenStates,
    TokenStart,
    TokenAp,
    TokenAlias,
    TokenAcceptance,
    TokenAccname,
    TokenTool,
    TokenName,
    TokenProperties,
    TokenNot,
    TokenAnd,
    TokenOr,
    TokenLparenth,
    TokenRparenth,
    TokenLbracket,
    TokenRbracket,
    TokenLcurly,
    TokenRcurly,
    TokenTrue,
    TokenFalse,
}

impl TokenType {
    /// The name of the category, in capitals.
    pub open spec fn name(self) -> Seq<char> {
        match self {
            TokenType::TokenInt => "INT"@,
            TokenType::TokenIdent => "IDENT"@,
            TokenType::TokenString => "STRING"@,
            TokenType::TokenHeaderName => "HEADER_NAME"@,
            TokenType::TokenAliasName => "ALIAS_NAME"@,
            TokenType::TokenEof => "EOF"@,
            TokenType::TokenBody => "BODY"@,
            TokenType::TokenEnd => "END"@,
            TokenType::TokenAbort => "ABORT"@,
            TokenType::TokenHoa => "HOA"@,
            TokenType::TokenState => "STATE"@,
            TokenType::TokenStates => "STATES"@,
            TokenType::TokenStart => "START"@,
            TokenType::TokenAp => "AP"@,
            TokenType::TokenAlias => "ALIAS"@,
            TokenType::TokenAcceptance => "ACCEPTANCE"@,
            TokenType::TokenAccname => "ACCNAME"@,
            TokenType::TokenTool => "TOOL"@,
            TokenType::TokenName => "NAME"@,
            TokenType::TokenProperties => "PROPERTIES"@,
            TokenType::TokenNot => "NOT"@,
            TokenType::TokenAnd => "AND"@,
            TokenType::TokenOr => "OR"@,
            TokenType::TokenLparenth => "LPARENTH"@,
            TokenType::TokenRparenth => "RPARENTH"@,
            TokenType::TokenLbracket => "LBRACHEKT"@,
            TokenType::TokenRbracket => "RBRACKET"@,
            TokenType::TokenLcurly => "LCURLY"@,
            TokenType::TokenRcurly => "RCURLY"@,
            TokenType::TokenTrue => "TRUE"@,
            TokenType::TokenFalse => "FALSE"@,
        }
    }

    /// What a token of the category is, in words; for a category with a
    /// payload, the words that stand before the payload.
    pub open spec fn description(self) -> Seq<char> {
        match self {
            TokenType::TokenInt => "INTEGER "@,
            TokenType::TokenIdent => "IDENTIFIER "@,
            TokenType::TokenString => "STRING "@,
            TokenType::TokenHeaderName => "HEADER "@,
            TokenType::TokenAliasName => "ALIAS "@,
            TokenType::TokenEof => "END-OF-FILE"@,
            TokenType::TokenBody => "--BODY--"@,
            TokenType::TokenEnd => "--END--"@,
            TokenType::TokenAbort => "--ABORT--"@,
            TokenType::TokenHoa => "HEADER HOA"@,
            TokenType::TokenStates => "HEADER States"@,
            TokenType::TokenStart => "HEADER Start"@,
            TokenType::TokenAp => "HEADER AP"@,
            TokenType::TokenAlias => "HEADER Alias"@,
            TokenType::TokenAcceptance => "HEADER Acceptance"@,
            TokenType::TokenAccname => "HEADER acc-name"@,
            TokenType::TokenTool => "HEADER tool"@,
            TokenType::TokenName => "HEADER name"@,
            TokenType::TokenProperties => "HEADER properties"@,
            TokenType::TokenState => "DEFINITION State"@,
            TokenType::TokenNot => "!"@,
            TokenType::TokenAnd => "&"@,
            TokenType::TokenOr => "|"@,
            TokenType::TokenLparenth => "("@,
            TokenType::TokenRparenth => ")"@,
            TokenType::TokenLbracket => "["@,
            TokenType::TokenRbracket => "]"@,
            TokenType::TokenLcurly => "{"@,
            TokenType::TokenRcurly => "}"@,
            TokenType::TokenTrue => "TRUE t"@,
            TokenType::TokenFalse => "FALSE f"@,
        }
    }

    /// The token of the category as it is written in the format; for a
    /// category with a payload, a word for the category.
    pub open spec fn written(self) -> Seq<char> {
        match self {
            TokenType::TokenInt => "INT"@,
            TokenType::TokenIdent => "IDENT"@,
            TokenType::TokenString => "STR"@,
            TokenType::TokenHeaderName => "HEADER"@,
            TokenType::TokenAliasName => "ALIAS"@,
            TokenType::TokenEof => "EOF"@,
            TokenType::TokenBody => "--BODY--"@,
            TokenType::TokenEnd => "--END--"@,
            TokenType::TokenAbort => "--ABORT--"@,
            TokenType::TokenHoa => "HOA:"@,
            TokenType::TokenState => "State:"@,
            TokenType::TokenStates => "States:"@,
            TokenType::TokenStart => "Start:"@,
            TokenType::TokenAp => "Ap:"@,
            TokenType::TokenAlias => "Alias:"@,
            TokenType::TokenAcceptance => "Acceptance:"@,
            TokenType::TokenAccname => "Accname:"@,
            TokenType::TokenTool => "tool:"@,
            TokenType::TokenName => "name:"@,
            TokenType::TokenProperties => "properties:"@,
            TokenType::TokenNot => "!"@,
            TokenType::TokenAnd => "&"@,
            TokenType::TokenOr => "|"@,
            TokenType::TokenLparenth => "("@,
            TokenType::TokenRparenth => ")"@,
            TokenType::TokenLbracket => "["@,
            TokenType::TokenRbracket => "]"@,
            TokenType::TokenLcurly => "{"@,
            TokenType::TokenRcurly => "}"@,
            TokenType::TokenTrue => "t"@,
            TokenType::TokenFalse => "f"@,
        }
    }

    /// What a token of the category is, in words.
    pub fn describe(self) -> (s: &'static str)
        ensures
            s@ == self.description(),
    {
        match self {
            TokenType::TokenInt => "INTEGER ",
            TokenType::TokenIdent => "IDENTIFIER ",
            TokenType::TokenString => "STRING ",
            TokenType::TokenHeaderName => "HEADER ",
            TokenType::TokenAliasName => "ALIAS ",
            TokenType::TokenEof => "END-OF-FILE",
            TokenType::TokenBody => "--BODY--",
            TokenType::TokenEnd => "--END--",
            TokenType::TokenAbort => "--ABORT--",
            TokenType::TokenHoa => "HEADER HOA",
            TokenType::TokenStates => "HEADER States",
            TokenType::TokenStart => "HEADER Start",
            TokenType::TokenAp => "HEADER AP",
            TokenType::TokenAlias => "HEADER Alias",
            TokenType::TokenAcceptance => "HEADER Acceptance",
            TokenType::TokenAccname => "HEADER acc-name",
            TokenType::TokenTool => "HEADER tool",
            TokenType::TokenName => "HEADER name",
            TokenType::TokenProperties => "HEADER properties",
            TokenType::TokenState => "DEFINITION State",
            TokenType::TokenNot => "!",
            TokenType::TokenAnd => "&",
            TokenType::TokenOr => "|",
            TokenType::TokenLparenth => "(",
            TokenType::TokenRparenth => ")",
            TokenType::TokenLbracket => "[",
            TokenType::TokenRbracket => "]",
            TokenType::TokenLcurly => "{",
            TokenType::TokenRcurly => "}",
            TokenType::TokenTrue => "TRUE t",
            TokenType::TokenFalse => "FALSE f",
        }
    }

    /// The token of the category as it is written in the format.
    pub fn write(self) -> (s: &'static str)
        ensures
            s@ == self.written(),
    {
        match self {
            TokenType::TokenInt => "INT",
            TokenType::TokenIdent => "IDENT",
            TokenType::TokenString => "STR",
            TokenType::TokenHeaderName => "HEADER",
            TokenType::TokenAliasName => "ALIAS",
            TokenType::TokenEof => "EOF",
            TokenType::TokenBody => "--BODY--",
            TokenType::TokenEnd => "--END--",
            TokenType::TokenAbort => "--ABORT--",
            TokenType::TokenHoa => "HOA:",
            TokenType::TokenState => "State:",
            TokenType::TokenStates => "States:",
            TokenType::TokenStart => "Start:",
            TokenType::TokenAp => "Ap:",
            TokenType::TokenAlias => "Alias:",
            TokenType::TokenAcceptance => "Acceptance:",
            TokenType::TokenAccname => "Accname:",
            TokenType::TokenTool => "tool:",
            TokenType::TokenName => "name:",
            TokenType::TokenProperties => "properties:",
            TokenType::TokenNot => "!",
            TokenType::TokenAnd => "&",
            TokenType::TokenOr => "|",
            TokenType::TokenLparenth => "(",
            TokenType::TokenRparenth => ")",
            TokenType::TokenLbracket => "[",
            TokenType::TokenRbracket => "]",
            TokenType::TokenLcurly => "{",
            TokenType::TokenRcurly => "}",
            TokenType::TokenTrue => "t",
            TokenType::TokenFalse => "f",
        }
    }
}

/// What a token is, without where it stands: its category and its payload.
pub struct Lexeme {
    pub kind: TokenType,
    pub text: Option<Seq<char>>,
    pub int: Option<usize>,
}

impl Lexeme {
    /// A lexeme without payload.
    pub open spec fn plain(kind: TokenType) -> Lexeme {
        Lexeme { kind, text: None, int: None }
    }

    /// A lexeme that carries a text.
    pub open spec fn with_text(kind: TokenType, text: Seq<char>) -> Lexeme {
        Lexeme { kind, text: Some(text), int: None }
    }

    /// A lexeme that carries a number.
    pub open spec fn with_int(kind: TokenType, value: usize) -> Lexeme {
        Lexeme { kind, text: None, int: Some(value) }
    }

    /// The number the lexeme carries, 0 where it carries none.
    pub open spec fn number(self) -> usize {
        match self.int {
            Some(n) => n,
            None => 0,
        }
    }

    /// The text the lexeme carries, empty where it carries none.
    pub open spec fn name(self) -> Seq<char> {
        match self.text {
            Some(t) => t,
            None => Seq::empty(),
        }
    }

    /// Whether the payload that the category calls for is there: a number for
    /// an integer, a text for an identifier, a string, a header name and an alias name.
    pub open spec fn has_payload(self) -> bool {
        match self.kind {
            TokenType::TokenInt => self.int is Some,
            TokenType::TokenIdent
            | TokenType::TokenString
            | TokenType::TokenHeaderName
            | TokenType::TokenAliasName => self.text is Some,
            _ => true,
        }
    }

    /// The lexeme with the payload that its category calls for, and no other.
    pub open spec fn typed(self) -> Lexeme {
        match self.kind {
            TokenType::TokenInt => Lexeme::with_int(self.kind, self.number()),
            TokenType::TokenIdent
            | TokenType::TokenString
            | TokenType::TokenHeaderName
            | TokenType::TokenAliasName => Lexeme::with_text(self.kind, self.name()),
            _ => Lexeme::plain(self.kind),
        }
    }

    /// The lexeme in words: what its category is, and its payload.
    pub open spec fn described(self) -> Seq<char> {
        match self.kind {
            TokenType::TokenInt => self.kind.description() + crate::text::decimal(
                self.number() as nat,
            ),
            TokenType::TokenIdent
            | TokenType::TokenString
            | TokenType::TokenHeaderName
            | TokenType::TokenAliasName => self.kind.description() + self.name(),
            _ => self.kind.description(),
        }
    }

    /// The lexeme as it is written in the format.
    pub open spec fn rendered(self) -> Seq<char> {
        match self.kind {
            TokenType::TokenInt => crate::text::decimal(self.number() as nat),
            TokenType::TokenIdent => "'"@ + self.name() + "'"@,
            TokenType::TokenString => "\""@ + self.name() + "\""@,
            TokenType::TokenHeaderName => "HEADER("@ + self.name() + ")"@,
            TokenType::TokenAliasName => "@"@ + self.name(),
            TokenType::TokenEof => "EOF"@,
            TokenType::TokenBody => "--BODY--"@,
            TokenType::TokenEnd => "--END--"@,
            TokenType::TokenAbort => "--ABORT--"@,
            TokenType::TokenHoa => "HOA: "@,
            TokenType::TokenState => "State: "@,
            TokenType::TokenStates => "States: "@,
            TokenType::TokenStart => "Start: "@,
            TokenType::TokenAp => "AP: "@,
            TokenType::TokenAlias => "Alias: "@,
            TokenType::TokenAcceptance => "Acceptance: "@,
            TokenType::TokenAccname => "acc-name: "@,
            TokenType::TokenTool => "tool: "@,
            TokenType::TokenName => "name: "@,
            TokenType::TokenProperties => "properties: "@,
            TokenType::TokenNot => "!"@,
            TokenType::TokenAnd => "&"@,
            TokenType::TokenOr => "|"@,
            TokenType::TokenLparenth => "("@,
            TokenType::TokenRparenth => ")"@,
            TokenType::TokenLbracket => "["@,
            TokenType::TokenRbracket => "]"@,
            TokenType::TokenLcurly => "{"@,
            TokenType::TokenRcurly => "}"@,
            TokenType::TokenTrue => "t"@,
            TokenType::TokenFalse => "f"@,
        }
    }
}

/// A lexeme together with the line and column of its first character.
pub struct TokenView {
    pub lexeme: Lexeme,
    pub line: usize,
    pub col: usize,
}

/// What is wrong with a malformed token.
#[derive(Debug, Clone, Copy, PartialEq, Eq, Structural)]
pub enum LexerErrorKind {
    /// A `-` without a second `-` behind it.
    MissingDash,
    /// `--A` that does not go on to `--ABORT--`.
    ExpectedAbort,
    /// `--B` that does not go on to `--BODY--`.
    ExpectedBody,
    /// `--E` that does not go on to `--END--`.
    ExpectedEnd,
    /// `--` before anything but `A`, `B` or `E`.
    UnknownMarker,
    /// A quoted string that the input ends in.
    UnterminatedString,
    /// A run of digits whose value is too large.
    InvalidInteger,
    /// A byte that no token starts with.
    UnrecognizedCharacter,
}

/// A malformed token: what is wrong with it, and the line and column of its
/// first character.
#[derive(Debug, Clone, Copy, PartialEq, Eq, Structural)]
pub struct LexerError {
    pub kind: LexerErrorKind,
    pub line: usize,
    pub col: usize,
}

impl LexerErrorKind {
    /// What is wrong, in words.
    pub open spec fn explained(self) -> Seq<char> {
        match self {
            LexerErrorKind::MissingDash => "tokens need two dashes (--)"@,
            LexerErrorKind::ExpectedAbort => "unrecognized token, expected ABORT"@,
            LexerErrorKind::ExpectedBody => "unrecognized token, expected BODY"@,
            LexerErrorKind::ExpectedEnd => "unrecognized token, expected END"@,
            LexerErrorKind::UnknownMarker => "unexpected token, can be ABORT, BODY and END"@,
            LexerErrorKind::UnterminatedString => "premature end of file in quoted string"@,
            LexerErrorKind::InvalidInteger => "error while parsing integer"@,
            LexerErrorKind::UnrecognizedCharacter => "unrecognized character"@,
        }
    }

    /// What is wrong, in words.
    pub fn message(self) -> (s: &'static str)
        ensures
            s@ == self.explained(),
    {
        match self {
            LexerErrorKind::MissingDash => "tokens need two dashes (--)",
            LexerErrorKind::ExpectedAbort => "unrecognized token, expected ABORT",
            LexerErrorKind::ExpectedBody => "unrecognized token, expected BODY",
            LexerErrorKind::ExpectedEnd => "unrecognized token, expected END",
            LexerErrorKind::UnknownMarker => "unexpected token, can be ABORT, BODY and END",
            LexerErrorKind::UnterminatedString => "premature end of file in quoted string",
            LexerErrorKind::InvalidInteger => "error while parsing integer",
            LexerErrorKind::UnrecognizedCharacter => "unrecognized character",
        }
    }
}

impl LexerError {
    /// The error as a one-line message: what is wrong, and where.
    pub open spec fn rendered(self) -> Seq<char> {
        self.kind.explained() + " at line "@ + crate::text::decimal(self.line as nat)
            + ", column "@ + crate::text::decimal(self.col as nat)
    }

    /// The error as a one-line message: what is wrong, and where.
    pub fn to_string(&self) -> (s: String)
        ensures
            s@ == self.rendered(),
    {
        let mut s = crate::text::owned(self.kind.message());
        crate::text::push_text(&mut s, " at line ");
        crate::text::push_decimal(&mut s, self.line);
        crate::text::push_text(&mut s, ", column ");
        crate::text::push_decimal(&mut s, self.col);
        s
    }
}

impl TokenView {
    /// The token with its position: the payload in parentheses behind a word
    /// for the category, or the token as it is written, then the line and the column.
    pub open spec fn rendered(self) -> Seq<char> {
        let line = crate::text::decimal(self.line as nat);
        let col = crate::text::decimal(self.col as nat);
        match self.lexeme.kind {
            TokenType::TokenInt => self.lexeme.kind.written() + "("@ + crate::text::decimal(
                self.lexeme.number() as nat,
            ) + ") at "@ + line + ","@ + col,
            TokenType::TokenIdent | TokenType::TokenString | TokenType::TokenHeaderName =>
                self.lexeme.kind.written() + "("@ + self.lexeme.name() + ") at "@ + line + ","@
                    + col,
            TokenType::TokenAliasName => self.lexeme.kind.written() + "(@"@ + self.lexeme.name()
                + ") at "@ + line + ","@ + col,
            _ => self.lexeme.kind.written() + " at "@ + line + ", "@ + col,
        }
    }
}

/// The view of an optional string.
pub open spec fn text_view(string: Option<String>) -> Option<Seq<char>> {
    match string {
        Some(s) => Some(s@),
        None => None,
    }
}

/// A raw token record: a category, at most one payload, and a position.
#[derive(Debug, Clone, PartialEq)]
pub struct Token {
    pub kind: TokenType,
    pub string: Option<String>,
    pub int: Option<usize>,
    line: usize,
    col: usize,
}

impl View for Token {
    type V = TokenView;

    closed spec fn view(&self) -> TokenView {
        TokenView {
            lexeme: Lexeme { kind: self.kind, text: text_view(self.string), int: self.int },
            line: self.line,
            col: self.col,
        }
    }
}

impl Token {
    /// A token without payload.
    pub fn new(kind: TokenType, line: usize, col: usize) -> (token: Token)
        ensures
            token@ == (TokenView { lexeme: Lexeme { kind, text: None, int: None }, line, col }),
    {
        Token { kind, string: None, int: None, line, col }
    }

    /// A token that carries a text.
    pub fn new_with_string(kind: TokenType, line: usize, col: usize, string: String) -> (token:
        Token)
        ensures
            token@ == (TokenView {
                lexeme: Lexeme { kind, text: Some(string@), int: None },
                line,
                col,
            }),
    {
        Token { kind, string: Some(string), int: None, line, col }
    }

    /// A token that carries a number.
    pub fn new_with_int(kind: TokenType, line: usize, col: usize, integer: usize) -> (token: Token)
        ensures
            token@ == (TokenView {
                lexeme: Lexeme { kind, text: None, int: Some(integer) },
                line,
                col,
            }),
    {
        Token { kind, string: None, int: Some(integer), line, col }
    }

    /// The category of the token.
    pub fn kind(&self) -> (kind: TokenType)
        ensures
            kind == self@.lexeme.kind,
    {
        self.kind
    }

    /// The line of the token's first character, counted from 0.
    pub fn line(&self) -> (line: usize)
        ensures
            line == self@.line,
    {
        self.line
    }

    /// The column of the token's first character, counted from 0.
    pub fn col(&self) -> (col: usize)
        ensures
            col == self@.col,
    {
        self.col
    }

    /// The number the token carries, 0 where it carries none.
    pub fn number(&self) -> (n: usize)
        ensures
            n == self@.lexeme.number(),
    {
        match self.int {
            Some(n) => n,
            None => 0,
        }
    }

    /// The text the token carries, empty where it carries none.
    pub fn text(&self) -> (s: String)
        ensures
            s@ == self@.lexeme.name(),
    {
        match &self.string {
            Some(s) => s.clone(),
            None => String::new(),
        }
    }

    /// The token as a typed token at its position, with the payload that its
    /// category calls for.
    pub fn typed(&self) -> (token: token::PositionedToken)
        ensures
            token@ == (TokenView { lexeme: self@.lexeme.typed(), line: self@.line, col: self@.col }),
    {
        let typed = match self.kind {
            TokenType::TokenInt => token::Token::TokenInt(self.number()),
            TokenType::TokenIdent => token::Token::TokenIdent(self.text()),
            TokenType::TokenString => token::Token::TokenString(self.text()),
            TokenType::TokenHeaderName => token::Token::TokenHeaderName(self.text()),
            TokenType::TokenAliasName => token::Token::TokenAliasName(self.text()),
            TokenType::TokenEof => token::Token::TokenEof,
            TokenType::TokenBody => token::Token::TokenBody,
            TokenType::TokenEnd => token::Token::TokenEnd,
            TokenType::TokenAbort => token::Token::TokenAbort,
            TokenType::TokenHoa => token::Token::TokenHoa,
            TokenType::TokenState => token::Token::TokenState,
            TokenType::TokenStates => token::Token::TokenStates,
            TokenType::TokenStart => token::Token::TokenStart,
            TokenType::TokenAp => token::Token::TokenAp,
            TokenType::TokenAlias => token::Token::TokenAlias,
            TokenType::TokenAcceptance => token::Token::TokenAcceptance,
            TokenType::TokenAccname => token::Token::TokenAccname,
            TokenType::TokenTool => token::Token::TokenTool,
            TokenType::TokenName => token::Token::TokenName,
            TokenType::TokenProperties => token::Token::TokenProperties,
            TokenType::TokenNot => token::Token::TokenNot,
            TokenType::TokenAnd => token::Token::TokenAnd,
            TokenType::TokenOr => token::Token::TokenOr,
            TokenType::TokenLparenth => token::Token::TokenLparenth,
            TokenType::TokenRparenth => token::Token::TokenRparenth,
            TokenType::TokenLbracket => token::Token::TokenLbracket,
            TokenType::TokenRbracket => token::Token::TokenRbracket,
            TokenType::TokenLcurly => token::Token::TokenLcurly,
            TokenType::TokenRcurly => token::Token::TokenRcurly,
            TokenType::TokenTrue => token::Token::TokenTrue,
            TokenType::TokenFalse => token::Token::TokenFalse,
        };
        typed.at(self.line, self.col)
    }

    /// The name of a category, in capitals.
    pub fn type_as_string(kind: TokenType) -> (s: String)
        ensures
            s@ == kind.name(),
    {
        match kind {
            TokenType::TokenInt => owned("INT"),
            TokenType::TokenIdent => owned("IDENT"),
            TokenType::TokenString => owned("STRING"),
            TokenType::TokenHeaderName => owned("HEADER_NAME"),
            TokenType::TokenAliasName => owned("ALIAS_NAME"),
            TokenType::TokenEof => owned("EOF"),
            TokenType::TokenBody => owned("BODY"),
            TokenType::TokenEnd => owned("END"),
            TokenType::TokenAbort => owned("ABORT"),
            TokenType::TokenHoa => owned("HOA"),
            TokenType::TokenState => owned("STATE"),
            TokenType::TokenStates => owned("STATES"),
            TokenType::TokenStart => owned("START"),
            TokenType::TokenAp => owned("AP"),
            TokenType::TokenAlias => owned("ALIAS"),
            TokenType::TokenAcceptance => owned("ACCEPTANCE"),
            TokenType::TokenAccname => owned("ACCNAME"),
            TokenType::TokenTool => owned("TOOL"),
            TokenType::TokenName => owned("NAME"),
            TokenType::TokenProperties => owned("PROPERTIES"),
            TokenType::TokenNot => owned("NOT"),
            TokenType::TokenAnd => owned("AND"),
            TokenType::TokenOr => owned("OR"),
            TokenType::TokenLparenth => owned("LPARENTH"),
            TokenType::TokenRparenth => owned("RPARENTH"),
            TokenType::TokenLbracket => owned("LBRACHEKT"),
            TokenType::TokenRbracket => owned("RBRACKET"),
            TokenType::TokenLcurly => owned("LCURLY"),
            TokenType::TokenRcurly => owned("RCURLY"),
            TokenType::TokenTrue => owned("TRUE"),
            TokenType::TokenFalse => owned("FALSE"),
        }
    }

    /// The token in words: what its category is, and its payload (0 or
    /// nothing where the payload is not there).
    pub fn to_string(&self) -> (s: String)
        ensures
            s@ == self@.lexeme.described(),
    {
        let mut s = owned(self.kind.describe());
        match self.kind {
            TokenType::TokenInt => {
                crate::text::push_decimal(&mut s, self.number());
            },
            TokenType::TokenIdent
            | TokenType::TokenString
            | TokenType::TokenHeaderName
            | TokenType::TokenAliasName => {
                let text = self.text();
                crate::text::push_text(&mut s, text.as_str());
            },
            _ => {},
        }
        s
    }

    /// Whether this is the end-of-input marker.
    pub fn is_eof(&self) -> (eof: bool)
        ensures
            eof == (self@.lexeme.kind == TokenType::TokenEof),
    {
        self.kind == TokenType::TokenEof
    }
}

/// What the tokens of a vector are.
pub open spec fn token_views(tokens: Seq<Token>) -> Seq<TokenView> {
    tokens.map_values(|t: Token| t@)
}

/// The items at or behind a position: those on a later line, and those on the
/// line itself from the column on.
pub open spec fn at_or_behind(l: usize, col: usize) -> spec_fn(Item) -> bool {
    |item: Item| item.1 > l || (item.1 >= l && item.2 >= col)
}

/// Every item stands at or behind the first position.
pub proof fn lemma_all_behind_origin(q: Seq<Item>)
    ensures
        q.filter(at_or_behind(0, 0)) == q,
    decreases q.len(),
{
    reveal(Seq::filter);
    if q.len() > 0 {
        lemma_all_behind_origin(q.drop_last());
        assert(q.drop_last().push(q.last()) =~= q);
    }
}

/// The token of a result, as a value.
pub open spec fn token_view(result: Result<Token, LexerError>) -> Result<TokenView, LexerError> {
    match result {
        Ok(token) => Ok(token@),
        Err(e) => Err(e),
    }
}

/// What stands at a cursor: the token that starts at or behind it, or the
/// error of a malformed one, and the cursor behind the token, which is the
/// position of the item of the stream behind it (the end of the input, were
/// there none).  At the end of the input and at a malformed token the cursor
/// stays.
pub open spec fn token_at_cursor(s: Seq<u8>, cursor: (usize, usize)) -> (
    Result<TokenView, LexerError>,
    (usize, usize),
) {
    let q = crate::lexer::grid::stream(s).filter(at_or_behind(cursor.0, cursor.1));
    let end = crate::lexer::grid::end_position(s);
    let start = crate::lexer::grammar::skip_blanks(q, 0);
    if start >= q.len() {
        (Ok(crate::lexer::grammar::eof_token(end)), cursor)
    } else {
        match crate::lexer::grammar::scan(q, start) {
            Ok(scan) => (
                Ok(scan.token),
                if scan.next < q.len() {
                    (q[scan.next].1, q[scan.next].2)
                } else {
                    end
                },
            ),
            Err(e) => (Err(e), cursor),
        }
    }
}

/// A lexer over an input held in memory.
pub struct HoaLexer {
    line: usize,
    col: usize,
    known_headers: Keywords,
    input: Vec<u8>,
}

impl HoaLexer {
    #[verifier::type_invariant]
    spec fn holds_keywords(&self) -> bool {
        crate::lexer::scanner::keywords_view(self.known_headers@)
            == crate::lexer::grammar::header_keywords()
    }

    /// The bytes of the input.
    pub closed spec fn bytes(&self) -> Seq<u8> {
        self.input@
    }

    /// The line and the column at which `next_token` goes on reading.
    pub closed spec fn cursor(&self) -> (usize, usize) {
        (self.line, self.col)
    }

    /// A lexer over the given input, about to read its first byte.
    pub fn new(input: &[u8]) -> (lexer: HoaLexer)
        ensures
            lexer.bytes() == input@,
            lexer.cursor() == (0usize, 0usize),
    {
        let mut headers: Keywords = Vec::new();
        headers.push((owned("HOA:"), TokenType::TokenHoa));
        headers.push((owned("State:"), TokenType::TokenState));
        headers.push((owned("States:"), TokenType::TokenStates));
        headers.push((owned("Start:"), TokenType::TokenStart));
        headers.push((owned("AP:"), TokenType::TokenAp));
        headers.push((owned("Alias:"), TokenType::TokenAlias));
        headers.push((owned("Acceptance:"), TokenType::TokenAcceptance));
        headers.push((owned("acc-name:"), TokenType::TokenAccname));
        headers.push((owned("tool:"), TokenType::TokenTool));
        headers.push((owned("name:"), TokenType::TokenName));
        headers.push((owned("properties:"), TokenType::TokenProperties));
        assert(crate::lexer::scanner::keywords_view(headers@)
            =~= crate::lexer::grammar::header_keywords());
        HoaLexer {
            line: 0,
            col: 0,
            known_headers: headers,
            input: vstd::slice::slice_to_vec(input),
        }
    }

    /// The input.
    pub fn input(&self) -> (input: &Vec<u8>)
        ensures
            input@ == self.bytes(),
    {
        &self.input
    }

    /// The stream of the input: every byte of every line with its line and
    /// its column, and every line closed by a newline at the column of the
    /// length of the line, also a last line that has none of its own.  A
    /// carriage return is handed out like any other byte of its line.
    pub fn iterator_annotated(&self) -> (items: Vec<Item>)
        ensures
            items@ == crate::lexer::grid::stream(self.bytes()),
    {
        let mut items: Vec<Item> = Vec::new();
        let mut line: usize = 0;
        let mut col: usize = 0;
        let mut k: usize = 0;
        while k < self.input.len()
            invariant
                k <= self.input.len(),
                line == crate::lexer::grid::line_at(self.input@, k as int),
                col == crate::lexer::grid::column_at(self.input@, k as int),
                items@ == crate::lexer::grid::annotated(self.input@).take(k as int),
            decreases self.input.len() - k,
        {
            let b = self.input[k];
            items.push((b, line, col));
            proof {
                crate::lexer::grid::lemma_position_bounds(self.input@, k + 1);
                assert(items@ =~= crate::lexer::grid::annotated(self.input@).take(k + 1));
            }
            if b == crate::lexer::grid::NEWLINE {
                line = line + 1;
                col = 0;
            } else {
                col = col + 1;
            }
            k = k + 1;
        }
        assert(items@ =~= crate::lexer::grid::annotated(self.input@));
        // the last line is closed like every other one
        if k > 0 && self.input[k - 1] != crate::lexer::grid::NEWLINE {
            items.push((crate::lexer::grid::NEWLINE, line, col));
            proof {
                let closed = crate::lexer::grid::closed(self.input@);
                crate::lexer::grid::lemma_position_bounds(self.input@, k as int);
                assert forall|i: int| 0 <= i < closed.len() implies items@[i]
                    == crate::lexer::grid::annotated(closed)[i] by {
                    crate::lexer::grid::lemma_closed_positions(self.input@, i);
                }
                assert(items@ =~= crate::lexer::grid::annotated(closed));
            }
        }
        items
    }

    /// The items of the stream at or behind a position: those on a later
    /// line, and those on line `l` from column `col` on.
    pub fn iterator_from(&self, l: usize, col: usize) -> (items: Vec<Item>)
        ensures
            items@ == crate::lexer::grid::stream(self.bytes()).filter(at_or_behind(l, col)),
    {
        let all = self.iterator_annotated();
        let mut items: Vec<Item> = Vec::new();
        let mut k: usize = 0;
        assert(all@.take(0) =~= Seq::<Item>::empty());
        assert(all@.take(0).filter(at_or_behind(l, col)) =~= Seq::<Item>::empty()) by {
            reveal(Seq::filter);
        }
        while k < all.len()
            invariant
                k <= all.len(),
                items@ == all@.take(k as int).filter(at_or_behind(l, col)),
            decreases all.len() - k,
        {
            let (c, n_line, n_col) = all[k];
            proof {
                reveal(Seq::filter);
                assert(all@.take(k + 1).drop_last() =~= all@.take(k as int));
            }
            if n_line > l || (n_line >= l && n_col >= col) {
                items.push((c, n_line, n_col));
            }
            k = k + 1;
        }
        assert(all@.take(k as int) =~= all@);
        items
    }

    /// The line and the column at which the content of the last line ends.
    pub fn end_position(&self) -> (end: (usize, usize))
        ensures
            end == crate::lexer::grid::end_position(self.bytes()),
    {
        let n = self.input.len();
        let offset: usize = if n >= 2 && self.input[n - 1] == crate::lexer::grid::NEWLINE
            && self.input[n - 2] == crate::lexer::grid::CARRIAGE_RETURN {
            n - 2
        } else if n >= 1 && self.input[n - 1] == crate::lexer::grid::NEWLINE {
            n - 1
        } else {
            n
        };
        let items = self.iterator_annotated();
        if offset < items.len() {
            proof {
                crate::lexer::grid::lemma_stream_positions(self.input@, offset as int);
            }
            (items[offset].1, items[offset].2)
        } else {
            (0, 0)
        }
    }

    /// Splits the whole input into tokens.  The last token is the
    /// end-of-input marker.  The lexer itself stays as it is.
    #[verifier::loop_isolation(false)]
    pub fn tokenize(&mut self) -> (result: Result<Vec<Token>, LexerError>)
        ensures
            final(self).bytes() == old(self).bytes(),
            final(self).cursor() == old(self).cursor(),
            match crate::lexer::grammar::tokens_of(old(self).bytes()) {
                Ok(views) => result matches Ok(tokens) && token_views(tokens@) == views,
                Err(e) => result == Err::<Vec<Token>, LexerError>(e),
            },
    {
        proof {
            use_type_invariant(&*self);
        }
        let mut tokens: Vec<Token> = Vec::new();
        let end = self.end_position();
        let items = self.iterator_from(0, 0);
        let ghost q = items@;
        proof {
            lemma_all_behind_origin(crate::lexer::grid::stream(self.input@));
        }
        // an iterator that can peek several times, so that we can tell the tokens apart
        let mut it = crate::lexer::stream::multipeek(items);
        let ghost mut k: int = 0;
        assert(q.skip(0) =~= q);
        proof {
            match crate::lexer::grammar::tokens_from(q, 0, end) {
                Ok(rest) => {
                    assert(token_views(tokens@) + rest =~= rest);
                },
                Err(e) => {},
            }
        }
        loop
            invariant
                0 <= k <= q.len(),
                crate::lexer::stream::pending(it) == q.skip(k),
                crate::lexer::stream::peeked(it) == 0,
                crate::lexer::scanner::keywords_view(self.known_headers@)
                    == crate::lexer::grammar::header_keywords(),
                match crate::lexer::grammar::tokens_from(q, k, end) {
                    Ok(rest) => crate::lexer::grammar::tokens_from(q, 0, end) == Ok::<
                        Seq<TokenView>,
                        LexerError,
                    >(token_views(tokens@) + rest),
                    Err(e) => crate::lexer::grammar::tokens_from(q, 0, end) == Err::<
                        Seq<TokenView>,
                        LexerError,
                    >(e),
                },
            decreases q.len() - k,
        {
            // the first byte decides what is going to happen
            let chr = crate::lexer::stream::peek(&mut it);
            match chr {
                // there are no bytes left
                None => {
                    tokens.push(Token::new(TokenType::TokenEof, end.0, end.1));
                    assert(token_views(tokens@) =~= token_views(tokens@.drop_last())
                        + seq![crate::lexer::grammar::eof_token(end)]);
                    return Ok(tokens);
                },
                Some(first) => {
                    // start over, in case the token is a longer one
                    crate::lexer::stream::reset_peek(&mut it);
                    proof {
                        crate::lexer::grammar::lemma_skip_blanks(q, k + 1);
                        crate::lexer::grammar::lemma_scan(q, k);
                        if crate::lexer::grammar::skip_blanks(q, k + 1) < q.len() {
                            crate::lexer::grammar::lemma_scan(
                                q,
                                crate::lexer::grammar::skip_blanks(q, k + 1),
                            );
                        }
                    }
                    if is_blank(first.0) {
                        let _ = crate::lexer::stream::next(&mut it);
                        assert(q.skip(k).skip(1) =~= q.skip(k + 1));
                        proof {
                            k = k + 1;
                        }
                    } else {
                        match scan_token(&mut it, first, &self.known_headers, Ghost(q), Ghost(k)) {
                            Ok(token) => {
                                let ghost scan = crate::lexer::grammar::scan(q, k).unwrap();
                                let ghost before = tokens@;
                                tokens.push(token);
                                proof {
                                    k = scan.next;
                                    assert(token_views(tokens@) =~= token_views(before).push(
                                        scan.token,
                                    ));
                                    match crate::lexer::grammar::tokens_from(q, k, end) {
                                        Ok(rest) => {
                                            assert(token_views(before) + (seq![scan.token] + rest)
                                                =~= token_views(tokens@) + rest);
                                        },
                                        Err(e) => {},
                                    }
                                }
                            },
                            Err(e) => {
                                return Err(e);
                            },
                        }
                    }
                },
            }
        }
    }

    /// Reads the token at the cursor and moves the cursor behind it.  At the
    /// end of the input the token is the end-of-input marker, and the cursor
    /// stays; it stays at a malformed token too.
    pub fn next_token(&mut self) -> (result: Result<Token, LexerError>)
        ensures
            final(self).bytes() == old(self).bytes(),
            (token_view(result), final(self).cursor()) == token_at_cursor(
                old(self).bytes(),
                old(self).cursor(),
            ),
    {
        proof {
            use_type_invariant(&*self);
        }
        let end = self.end_position();
        let items = self.iterator_from(self.line, self.col);
        let ghost q = items@;
        let mut it = crate::lexer::stream::multipeek(items);
        assert(q.skip(0) =~= q);
        proof {
            crate::lexer::grammar::lemma_skip_blanks(q, 0);
        }
        let first = match skip_whitespace(&mut it, Ghost(q), Ghost(0)) {
            Some(first) => first,
            None => {
                return Ok(Token::new(TokenType::TokenEof, end.0, end.1));
            },
        };
        let ghost start = crate::lexer::grammar::skip_blanks(q, 0);
        let token = match scan_token(&mut it, first, &self.known_headers, Ghost(q), Ghost(start)) {
            Ok(token) => token,
            Err(e) => {
                return Err(e);
            },
        };
        proof {
            crate::lexer::grammar::lemma_scan(q, start);
        }
        // the cursor goes to the next byte, or to the end of the input
        match crate::lexer::stream::peek(&mut it) {
            Some((_, line, col)) => {
                self.line = line;
                self.col = col;
            },
            None => {
                self.line = end.0;
                self.col = end.1;
            },
        }
        Ok(token)
    }
}

} // verus!
