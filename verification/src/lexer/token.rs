//! Typed tokens: one variant per lexical category, with the payload in the variant.

use vstd::prelude::*;
use crate::lexer::{Lexeme, TokenType, TokenView};
use crate::text::{owned, push_decimal, push_text};

verus! {

/// A token of the format.
#[derive(Clone, Debug, PartialEq, Eq, Hash)]
pub enum Token {
    TokenInt(usize),
    TokenIdent(String),
    TokenString(String),
    TokenHeaderName(String),
    TokenAliasName(String),
    TokenEof,
    TokenBody,
    TokenEnd,
    TokenAbort,
    TokenHoa,
    TokenState,
    TokenStates,
    TokenStart,
    TokenAp,
    TokenAlias,
    TokenAcceptance,
    TokenAccname,
    TokenTool,
    TokenName,
    TokenProperties,
    TokenNot,
    TokenAnd,
    TokenOr,
    TokenLparenth,
    TokenRparenth,
    TokenLbracket,
    TokenRbracket,
    TokenLcurly,
    TokenRcurly,
    TokenTrue,
    TokenFalse,
}

/// A token together with the line and column of its first character.
#[derive(Clone, Debug, PartialEq, Eq, Hash)]
pub struct PositionedToken {
    pub token: Token,
    pub line: usize,
    pub col: usize,
}

impl View for Token {
    type V = Lexeme;

    open spec fn view(&self) -> Lexeme {
        match self {
            Token::TokenInt(n) => Lexeme::with_int(TokenType::TokenInt, *n),
            Token::TokenIdent(s) => Lexeme::with_text(TokenType::TokenIdent, s@),
            Token::TokenString(s) => Lexeme::with_text(TokenType::TokenString, s@),
            Token::TokenHeaderName(s) => Lexeme::with_text(TokenType::TokenHeaderName, s@),
            Token::TokenAliasName(s) => Lexeme::with_text(TokenType::TokenAliasName, s@),
            _ => Lexeme::plain(self.spec_kind()),
        }
    }
}

impl View for PositionedToken {
    type V = TokenView;

    open spec fn view(&self) -> TokenView {
        TokenView { lexeme: self.token@, line: self.line, col: self.col }
    }
}

impl Token {
    /// The category of a token.
    pub open spec fn spec_kind(&self) -> TokenType {
        match self {
            Token::TokenInt(_) => TokenType::TokenInt,
            Token::TokenIdent(_) => TokenType::TokenIdent,
            Token::TokenString(_) => TokenType::TokenString,
            Token::TokenHeaderName(_) => TokenType::TokenHeaderName,
            Token::TokenAliasName(_) => TokenType::TokenAliasName,
            Token::TokenEof => TokenType::TokenEof,
            Token::TokenBody => TokenType::TokenBody,
            Token::TokenEnd => TokenType::TokenEnd,
            Token::TokenAbort => TokenType::TokenAbort,
            Token::TokenHoa => TokenType::TokenHoa,
            Token::TokenState => TokenType::TokenState,
            Token::TokenStates => TokenType::TokenStates,
            Token::TokenStart => TokenType::TokenStart,
            Token::TokenAp => TokenType::TokenAp,
            Token::TokenAlias => TokenType::TokenAlias,
            Token::TokenAcceptance => TokenType::TokenAcceptance,
            Token::TokenAccname => TokenType::TokenAccname,
            Token::TokenTool => TokenType::TokenTool,
            Token::TokenName => TokenType::TokenName,
            Token::TokenProperties => TokenType::TokenProperties,
            Token::TokenNot => TokenType::TokenNot,
            Token::TokenAnd => TokenType::TokenAnd,
            Token::TokenOr => TokenType::TokenOr,
            Token::TokenLparenth => TokenType::TokenLparenth,
            Token::TokenRparenth => TokenType::TokenRparenth,
            Token::TokenLbracket => TokenType::TokenLbracket,
            Token::TokenRbracket => TokenType::TokenRbracket,
            Token::TokenLcurly => TokenType::TokenLcurly,
            Token::TokenRcurly => TokenType::TokenRcurly,
            Token::TokenTrue => TokenType::TokenTrue,
            Token::TokenFalse => TokenType::TokenFalse,
        }
    }

    /// The category of a token.
    #[verifier::when_used_as_spec(spec_kind)]
    pub fn kind(&self) -> (kind: TokenType)
        ensures
            kind == self.spec_kind(),
    {
        match self {
            Token::TokenInt(_) => TokenType::TokenInt,
            Token::TokenIdent(_) => TokenType::TokenIdent,
            Token::TokenString(_) => TokenType::TokenString,
            Token::TokenHeaderName(_) => TokenType::TokenHeaderName,
            Token::TokenAliasName(_) => TokenType::TokenAliasName,
            Token::TokenEof => TokenType::TokenEof,
            Token::TokenBody => TokenType::TokenBody,
            Token::TokenEnd => TokenType::TokenEnd,
            Token::TokenAbort => TokenType::TokenAbort,
            Token::TokenHoa => TokenType::TokenHoa,
            Token::TokenState => TokenType::TokenState,
            Token::TokenStates => TokenType::TokenStates,
            Token::TokenStart => TokenType::TokenStart,
            Token::TokenAp => TokenType::TokenAp,
            Token::TokenAlias => TokenType::TokenAlias,
            Token::TokenAcceptance => TokenType::TokenAcceptance,
            Token::TokenAccname => TokenType::TokenAccname,
            Token::TokenTool => TokenType::TokenTool,
            Token::TokenName => TokenType::TokenName,
            Token::TokenProperties => TokenType::TokenProperties,
            Token::TokenNot => TokenType::TokenNot,
            Token::TokenAnd => TokenType::TokenAnd,
            Token::TokenOr => TokenType::TokenOr,
            Token::TokenLparenth => TokenType::TokenLparenth,
            Token::TokenRparenth => TokenType::TokenRparenth,
            Token::TokenLbracket => TokenType::TokenLbracket,
            Token::TokenRbracket => TokenType::TokenRbracket,
            Token::TokenLcurly => TokenType::TokenLcurly,
            Token::TokenRcurly => TokenType::TokenRcurly,
            Token::TokenTrue => TokenType::TokenTrue,
            Token::TokenFalse => TokenType::TokenFalse,
        }
    }

    /// The number of an integer token.
    pub fn unwrap_int(&self) -> (n: usize)
        requires
            self@.int is Some,
        ensures
            n == self@.number(),
    {
        match self {
            Token::TokenInt(n) => *n,
            _ => 0,
        }
    }

    /// The text of a token that carries one.
    pub fn unwrap_str(&self) -> (s: &String)
        requires
            self@.text is Some,
        ensures
            s@ == self@.name(),
    {
        match self {
            Token::TokenIdent(s)
            | Token::TokenString(s)
            | Token::TokenHeaderName(s)
            | Token::TokenAliasName(s) => s,
            _ => vstd::pervasive::unreached(),
        }
    }

    /// The token as it is written in the format.
    pub fn to_string(&self) -> (s: String)
        ensures
            s@ == self@.rendered(),
    {
        match self {
            Token::TokenInt(n) => {
                let mut s = String::new();
                push_decimal(&mut s, *n);
                assert(s@ =~= self@.rendered());
                s
            },
            Token::TokenIdent(name) => {
                let mut s = owned("'");
                push_text(&mut s, name.as_str());
                push_text(&mut s, "'");
                s
            },
            Token::TokenString(name) => {
                let mut s = owned("\"");
                push_text(&mut s, name.as_str());
                push_text(&mut s, "\"");
                s
            },
            Token::TokenHeaderName(name) => {
                let mut s = owned("HEADER(");
                push_text(&mut s, name.as_str());
                push_text(&mut s, ")");
                s
            },
            Token::TokenAliasName(name) => {
                let mut s = owned("@");
                push_text(&mut s, name.as_str());
                s
            },
            Token::TokenEof => owned("EOF"),
            Token::TokenBody => owned("--BODY--"),
            Token::TokenEnd => owned("--END--"),
            Token::TokenAbort => owned("--ABORT--"),
            Token::TokenHoa => owned("HOA: "),
            Token::TokenState => owned("State: "),
            Token::TokenStates => owned("States: "),
            Token::TokenStart => owned("Start: "),
            Token::TokenAp => owned("AP: "),
            Token::TokenAlias => owned("Alias: "),
            Token::TokenAcceptance => owned("Acceptance: "),
            Token::TokenAccname => owned("acc-name: "),
            Token::TokenTool => owned("tool: "),
            Token::TokenName => owned("name: "),
            Token::TokenProperties => owned("properties: "),
            Token::TokenNot => owned("!"),
            Token::TokenAnd => owned("&"),
            Token::TokenOr => owned("|"),
            Token::TokenLparenth => owned("("),
            Token::TokenRparenth => owned(")"),
            Token::TokenLbracket => owned("["),
            Token::TokenRbracket => owned("]"),
            Token::TokenLcurly => owned("{"),
            Token::TokenRcurly => owned("}"),
            Token::TokenTrue => owned("t"),
            Token::TokenFalse => owned("f"),
        }
    }

    /// Puts the token at a position.
    pub fn at(self, line: usize, col: usize) -> (positioned: PositionedToken)
        ensures
            positioned.token == self,
            positioned.line == line,
            positioned.col == col,
            positioned@ == (TokenView { lexeme: self@, line, col }),
    {
        PositionedToken { token: self, line, col }
    }
}

impl PositionedToken {
    /// The token with its position, as a text.
    pub fn to_string(&self) -> (s: String)
        ensures
            s@ == self@.rendered(),
    {
        let mut s = owned(self.token.kind().write());
        match &self.token {
            Token::TokenInt(number) => {
                push_text(&mut s, "(");
                push_decimal(&mut s, *number);
                push_text(&mut s, ") at ");
                push_decimal(&mut s, self.line);
                push_text(&mut s, ",");
                push_decimal(&mut s, self.col);
                assert(s@ =~= self@.rendered());
            },
            Token::TokenIdent(text) | Token::TokenString(text) | Token::TokenHeaderName(text) => {
                push_text(&mut s, "(");
                push_text(&mut s, text.as_str());
                push_text(&mut s, ") at ");
                push_decimal(&mut s, self.line);
                push_text(&mut s, ",");
                push_decimal(&mut s, self.col);
                assert(s@ =~= self@.rendered());
            },
            Token::TokenAliasName(alias) => {
                push_text(&mut s, "(@");
                push_text(&mut s, alias.as_str());
                push_text(&mut s, ") at ");
                push_decimal(&mut s, self.line);
                push_text(&mut s, ",");
                push_decimal(&mut s, self.col);
                assert(s@ =~= self@.rendered());
            },
            _ => {
                push_text(&mut s, " at ");
                push_decimal(&mut s, self.line);
                push_text(&mut s, ", ");
                push_decimal(&mut s, self.col);
                assert(s@ =~= self@.rendered());
            },
        }
        s
    }
}

} // verus!
