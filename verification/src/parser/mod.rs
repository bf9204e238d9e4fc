//! The parser: from tokens to calls on a consumer.

use vstd::prelude::*;
use crate::consumer::{AccnameInfo, AccnameInfoView, ConsumerCall, HoaConsumer};
use crate::lexer::token::{PositionedToken, Token};
use crate::lexer::{HoaLexer, Lexeme, LexerError, TokenType};
use crate::parser::expression::{AcceptanceCondition, BooleanExpression, ExpressionView};
use crate::text::{owned, push_text};
use vstd::std_specs::convert::FromSpecImpl;

pub mod expression;
pub mod expression_parser;
pub mod syntax;
pub mod laws;
pub mod slices;

verus! {

/// Why an input was refused.
#[derive(Debug, Clone, PartialEq)]
pub enum ParserError {
    /// A required token was expected and another one was found.
    MismatchingToken { expected: String, actual: String, context: String },
    /// A required token was expected and the input ended first.
    MissingToken { expected: String, context: String },
    /// A rule of an expression grammar could not be completed.
    UnexpectedEnd { message: String },
    /// An expression was expected and something else was found.
    ExpressionParsingError { expected: String, found: String },
    /// The input could not be split into tokens.
    LexingError { message: String },
    /// A token was well formed, and its value was not recognized.
    UnknownToken { message: String },
    /// The automaton declares no atomic proposition.
    ZeroAtomicPropositions,
}

/// The mathematical value of a [`ParserError`].
pub enum ParserErrorView {
    MismatchingToken { expected: Seq<char>, actual: Seq<char>, context: Seq<char> },
    MissingToken { expected: Seq<char>, context: Seq<char> },
    UnexpectedEnd { message: Seq<char> },
    ExpressionParsingError { expected: Seq<char>, found: Seq<char> },
    LexingError { message: Seq<char> },
    UnknownToken { message: Seq<char> },
    ZeroAtomicPropositions,
}

impl ParserErrorView {
    /// Whether the error is one that reading tokens can end with: a token
    /// that is missing, mismatching or unknown, a rule that could not be
    /// completed, or the declaration of zero atomic propositions.
    pub open spec fn is_of_the_parser(self) -> bool {
        !(self is LexingError) && !(self is ExpressionParsingError)
    }

    /// The error as a one-line message.
    pub open spec fn rendered(self) -> Seq<char> {
        match self {
            ParserErrorView::MissingToken { expected, context } => "Necessary token "@ + expected
                + " is missing in "@ + context,
            ParserErrorView::MismatchingToken {
                expected,
                actual,
                context,
            } => "Syntax error, expected token "@ + expected + " but got "@ + actual + " in "@
                + context,
            ParserErrorView::ZeroAtomicPropositions => "At least one atomic proposition is needed"@,
            ParserErrorView::UnknownToken { message } => "Unexpected token "@ + message,
            _ => "unexpected end"@,
        }
    }
}

impl View for ParserError {
    type V = ParserErrorView;

    open spec fn view(&self) -> ParserErrorView {
        match self {
            ParserError::MismatchingToken {
                expected,
                actual,
                context,
            } => ParserErrorView::MismatchingToken {
                expected: expected@,
                actual: actual@,
                context: context@,
            },
            ParserError::MissingToken { expected, context } => ParserErrorView::MissingToken {
                expected: expected@,
                context: context@,
            },
            ParserError::UnexpectedEnd { message } => ParserErrorView::UnexpectedEnd {
                message: message@,
            },
            ParserError::ExpressionParsingError {
                expected,
                found,
            } => ParserErrorView::ExpressionParsingError { expected: expected@, found: found@ },
            ParserError::LexingError { message } => ParserErrorView::LexingError {
                message: message@,
            },
            ParserError::UnknownToken { message } => ParserErrorView::UnknownToken {
                message: message@,
            },
            ParserError::ZeroAtomicPropositions => ParserErrorView::ZeroAtomicPropositions,
        }
    }
}

impl ParserError {
    /// The error as a one-line message.
    pub fn to_string(&self) -> (s: String)
        ensures
            s@ == self@.rendered(),
    {
        match self {
            ParserError::MissingToken { expected, context } => {
                let mut s = owned("Necessary token ");
                push_text(&mut s, expected.as_str());
                push_text(&mut s, " is missing in ");
                push_text(&mut s, context.as_str());
                s
            },
            ParserError::MismatchingToken { expected, actual, context } => {
                let mut s = owned("Syntax error, expected token ");
                push_text(&mut s, expected.as_str());
                push_text(&mut s, " but got ");
                push_text(&mut s, actual.as_str());
                push_text(&mut s, " in ");
                push_text(&mut s, context.as_str());
                s
            },
            ParserError::ZeroAtomicPropositions => owned(
                "At least one atomic proposition is needed",
            ),
            ParserError::UnknownToken { message } => {
                let mut s = owned("Unexpected token ");
                push_text(&mut s, message.as_str());
                s
            },
            _ => owned("unexpected end"),
        }
    }

    /// An [`ParserError::UnexpectedEnd`] with the given message.
    pub fn unexpected_end(message: &str) -> (error: ParserError)
        ensures
            error@ == (ParserErrorView::UnexpectedEnd { message: message@ }),
    {
        ParserError::UnexpectedEnd { message: owned(message) }
    }

    /// A [`ParserError::MismatchingToken`] with the given texts.
    pub fn mismatching(expected: &str, actual: String, context: &str) -> (error: ParserError)
        ensures
            error@ == (ParserErrorView::MismatchingToken {
                expected: expected@,
                actual: actual@,
                context: context@,
            }),
    {
        ParserError::MismatchingToken {
            expected: owned(expected),
            actual,
            context: owned(context),
        }
    }

    /// A [`ParserError::MissingToken`] with the given texts.
    pub fn missing(expected: &str, context: &str) -> (error: ParserError)
        ensures
            error@ == (ParserErrorView::MissingToken { expected: expected@, context: context@ }),
    {
        ParserError::MissingToken { expected: owned(expected), context: owned(context) }
    }
}

impl From<LexerError> for ParserError {
    fn from(err: LexerError) -> (error: ParserError) {
        lexing_error(err)
    }
}

/// The message of the error is a string, which a specification cannot
/// build: `lexing_error` says what the conversion gives.
impl FromSpecImpl<LexerError> for ParserError {
    open spec fn obeys_from_spec() -> bool {
        false
    }

    open spec fn from_spec(err: LexerError) -> ParserError {
        ParserError::ZeroAtomicPropositions
    }
}

/// The error of a parse whose input could not be split into tokens.
pub fn lexing_error(err: LexerError) -> (error: ParserError)
    ensures
        error@ == (ParserErrorView::LexingError { message: err.rendered() }),
{
    ParserError::LexingError { message: err.to_string() }
}

/// The lexemes of the tokens, each with the payload that its category calls for.
pub open spec fn typed_lexemes(views: Seq<crate::lexer::TokenView>) -> Seq<Lexeme> {
    views.map_values(|v: crate::lexer::TokenView| v.lexeme.typed())
}

/// The raw tokens as typed tokens.
pub(crate) fn typed_tokens(raw: &Vec<crate::lexer::Token>) -> (tokens: Vec<PositionedToken>)
    ensures
        positioned_lexemes(tokens@) == typed_lexemes(crate::lexer::token_views(raw@)),
{
    let mut tokens: Vec<PositionedToken> = Vec::new();
    let mut i: usize = 0;
    while i < raw.len()
        invariant
            i <= raw.len(),
            positioned_lexemes(tokens@) == typed_lexemes(
                crate::lexer::token_views(raw@.take(i as int)),
            ),
        decreases raw.len() - i,
    {
        let ghost before = tokens@;
        tokens.push(raw[i].typed());
        proof {
            assert(raw@.take(i + 1) =~= raw@.take(i as int).push(raw@[i as int]));
            assert(positioned_lexemes(tokens@) =~= positioned_lexemes(before).push(
                raw@[i as int]@.lexeme.typed(),
            ));
            assert(typed_lexemes(crate::lexer::token_views(raw@.take(i + 1))) =~= typed_lexemes(
                crate::lexer::token_views(raw@.take(i as int)),
            ).push(raw@[i as int]@.lexeme.typed()));
        }
        i = i + 1;
    }
    assert(raw@.take(i as int) =~= raw@);
    tokens
}

/// What the tokens are, one lexeme for each.
pub open spec fn positioned_lexemes(tokens: Seq<PositionedToken>) -> Seq<Lexeme> {
    tokens.map_values(|t: PositionedToken| t.token@)
}

/// Whether the token is a header keyword or `--BODY--`.
pub fn is_header_token(token: &Token) -> (is: bool)
    ensures
        is == syntax::is_header_kind(token@.kind),
{
    match token {
        Token::TokenHoa
        | Token::TokenState
        | Token::TokenStates
        | Token::TokenStart
        | Token::TokenAp
        | Token::TokenAlias
        | Token::TokenAcceptance
        | Token::TokenAccname
        | Token::TokenTool
        | Token::TokenName
        | Token::TokenProperties
        | Token::TokenHeaderName(_)
        | Token::TokenBody => true,
        _ => false,
    }
}

/// Whether the token is `State:`.
pub fn is_state_token(token: &PositionedToken) -> (is: bool)
    ensures
        is == (token@.lexeme.kind == TokenType::TokenState),
{
    match token.token {
        Token::TokenState => true,
        _ => false,
    }
}

/// Whether the token is `--END--`.
pub fn is_end_token(token: &PositionedToken) -> (is: bool)
    ensures
        is == (token@.lexeme.kind == TokenType::TokenEnd),
{
    match token.token {
        Token::TokenEnd => true,
        _ => false,
    }
}

/// Whether the token is the end-of-input marker.
pub fn is_eof_token(token: &PositionedToken) -> (is: bool)
    ensures
        is == (token@.lexeme.kind == TokenType::TokenEof),
{
    match token.token {
        Token::TokenEof => true,
        _ => false,
    }
}

/// Whether the token belongs to the header item before it: it is no header
/// keyword, not `--BODY--` and not the end of the input.
pub(crate) fn continues_header_item(token: &PositionedToken) -> (goes_on: bool)
    ensures
        goes_on != syntax::Stop::HeaderItem.at(token@.lexeme.kind),
{
    !(is_header_token(&token.token) || is_eof_token(token))
}

/// Whether the token belongs to the state block before it: it is not
/// `State:`, not `--END--` and not the end of the input.
pub(crate) fn continues_state_block(token: &PositionedToken) -> (goes_on: bool)
    ensures
        goes_on != syntax::Stop::StateBlock.at(token@.lexeme.kind),
{
    !(is_state_token(token) || is_end_token(token) || is_eof_token(token))
}

/// The tokens of a header item from `from` on: those up to the next header
/// keyword, `--BODY--` or the end of the input.
pub(crate) fn header_item_tokens(tokens: &Vec<PositionedToken>, from: usize) -> (taken: Vec<&Token>)
    requires
        from <= tokens.len(),
    ensures
        from + taken.len() <= tokens.len(),
        from + taken.len() == syntax::run_end(
            positioned_lexemes(tokens@),
            from as int,
            syntax::Stop::HeaderItem,
        ),
        expression_parser::lexemes(taken@) == positioned_lexemes(tokens@).subrange(
            from as int,
            from + taken.len(),
        ),
{
    let taken = slices::peeking_take_while(tokens, from, continues_header_item);
    proof {
        let ts = positioned_lexemes(tokens@);
        assert forall|i: int| from <= i < from + taken.len() implies !syntax::Stop::HeaderItem.at(
            #[trigger] ts[i].kind,
        ) by {
            assert(*taken[i - from] == tokens[from + (i - from)].token);
        }
        syntax::lemma_run_end_is(ts, from as int, syntax::Stop::HeaderItem, from + taken.len());
        assert(expression_parser::lexemes(taken@) =~= ts.subrange(
            from as int,
            from + taken.len(),
        ));
    }
    taken
}

/// The view of the outcome of a parsing step: the value and the position reached, or the error.
pub open spec fn step_view<T: View>(result: Result<(T, usize), ParserError>) -> Result<
    (T::V, int),
    ParserErrorView,
> {
    match result {
        Ok((value, next)) => Ok((value@, next as int)),
        Err(error) => Err(error@),
    }
}

/// Some integer, as the pattern of what is required.
pub fn integer_token() -> (token: Token)
    ensures
        token@ == syntax::any_integer(),
{
    Token::TokenInt(0)
}

/// Some identifier, as the pattern of what is required.
pub fn identifier_token() -> (token: Token)
    ensures
        token@ == syntax::any_identifier(),
{
    Token::TokenIdent(String::new())
}

/// Some quoted string, as the pattern of what is required.
pub fn string_token() -> (token: Token)
    ensures
        token@ == syntax::any_string(),
{
    Token::TokenString(String::new())
}

/// Some alias name, as the pattern of what is required.
pub fn alias_name_token() -> (token: Token)
    ensures
        token@ == syntax::any_alias_name(),
{
    Token::TokenAliasName(String::new())
}

/// Requires a token of the category of `expected`.  The token is missing
/// where there is none or the input ends; it is mismatching where another
/// token stands in its place.
pub fn expect<'t>(expected: Token, possible_token: Option<&'t PositionedToken>, context: &str) -> (result:
    Result<&'t PositionedToken, ParserError>)
    ensures
        match possible_token {
            Some(actual) => if actual.token@.kind == expected@.kind {
                result == Ok::<&PositionedToken, ParserError>(actual)
            } else if actual.token@.kind == TokenType::TokenEof {
                result matches Err(e) && e@ == (ParserErrorView::MissingToken {
                    expected: expected@.rendered(),
                    context: context@,
                })
            } else {
                result matches Err(e) && e@ == (ParserErrorView::MismatchingToken {
                    expected: expected@.rendered(),
                    actual: actual.token@.rendered(),
                    context: context@,
                })
            },
            None => result matches Err(e) && e@ == (ParserErrorView::MissingToken {
                expected: expected@.rendered(),
                context: context@,
            }),
        },
{
    match possible_token {
        Some(actual) => {
            if expected.kind() == actual.token.kind() {
                Ok(actual)
            } else if is_eof_token(actual) {
                Err(
                    ParserError::MissingToken {
                        expected: expected.to_string(),
                        context: owned(context),
                    },
                )
            } else {
                Err(
                    ParserError::MismatchingToken {
                        expected: expected.to_string(),
                        actual: actual.token.to_string(),
                        context: owned(context),
                    },
                )
            }
        },
        None => Err(
            ParserError::MissingToken { expected: expected.to_string(), context: owned(context) },
        ),
    }
}

/// The token at `pos`, if there is one.
pub(crate) fn token_at(tokens: &Vec<PositionedToken>, pos: usize) -> (token: Option<&PositionedToken>)
    ensures
        pos < tokens.len() ==> token == Some(&tokens[pos as int]),
        pos >= tokens.len() ==> token.is_none(),
{
    if pos < tokens.len() {
        Some(&tokens[pos])
    } else {
        None
    }
}

/// Requires a token of the category of `expected` at `pos`.
pub(crate) fn expect_at<'t>(
    expected: Token,
    tokens: &'t Vec<PositionedToken>,
    pos: usize,
    context: &str,
) -> (result: Result<&'t PositionedToken, ParserError>)
    ensures
        match result {
            Ok(token) => expression_parser::holds(
                positioned_lexemes(tokens@),
                pos as int,
                expected@.kind,
            ) && *token == tokens[pos as int],
            Err(e) => !expression_parser::holds(
                positioned_lexemes(tokens@),
                pos as int,
                expected@.kind,
            ) && e@ == syntax::expect_error(
                positioned_lexemes(tokens@),
                pos as int,
                expected@,
                context@,
            ),
        },
{
    expect(expected, token_at(tokens, pos), context)
}

/// The texts of the strings.
pub open spec fn string_views(strings: Seq<String>) -> Seq<Seq<char>> {
    strings.map_values(|s: String| s@)
}

/// The values of the items of extra information.
pub open spec fn info_views(items: Seq<AccnameInfo>) -> Seq<AccnameInfoView> {
    items.map_values(|item: AccnameInfo| item@)
}

/// The text of an optional string.
pub open spec fn name_view(name: Option<&String>) -> Option<Seq<char>> {
    match name {
        Some(s) => Some(s@),
        None => None,
    }
}

/// The value of an optional expression.
pub open spec fn label_view(label: Option<&BooleanExpression>) -> Option<ExpressionView> {
    match label {
        Some(l) => Some(l@),
        None => None,
    }
}

/// The numbers of an optional acceptance signature.
pub open spec fn sig_view(sig: Option<&Vec<usize>>) -> Option<Seq<usize>> {
    match sig {
        Some(s) => Some(s@),
        None => None,
    }
}

/// Whether a part of a parse was carried out: the calls of the step were
/// made, in their order, after those made before, and the result is the
/// position or the error of the step.
pub open spec fn carried_out(
    before: Seq<ConsumerCall>,
    after: Seq<ConsumerCall>,
    result: Result<usize, ParserError>,
    step: syntax::Step,
) -> bool {
    &&& after == before + step.calls
    &&& match result {
        Ok(next) => step.end == Ok::<int, ParserErrorView>(next as int),
        Err(e) => step.end == Err::<int, ParserErrorView>(e@),
    }
}

/// Whether a part of a parse that reaches no position was carried out: the
/// calls of the step were made, in their order, after those made before, and
/// the result is the error of the step if it has one.
pub open spec fn block_done(
    before: Seq<ConsumerCall>,
    after: Seq<ConsumerCall>,
    result: Result<(), ParserError>,
    step: syntax::Step,
) -> bool {
    &&& after == before + step.calls
    &&& match result {
        Ok(_) => step.end is Ok,
        Err(e) => step.end == Err::<int, ParserErrorView>(e@),
    }
}

/// Whether a token of the given category stands at `pos`.
pub(crate) fn holds_at(tokens: &Vec<&Token>, pos: usize, kind: TokenType) -> (holds: bool)
    ensures
        holds == expression_parser::holds(expression_parser::lexemes(tokens@), pos as int, kind),
{
    pos < tokens.len() && tokens[pos].kind() == kind
}

/// Whether a token of the given category stands at `pos`.
pub(crate) fn stands_at(tokens: &Vec<PositionedToken>, pos: usize, kind: TokenType) -> (holds: bool)
    ensures
        holds == expression_parser::holds(positioned_lexemes(tokens@), pos as int, kind),
{
    pos < tokens.len() && tokens[pos].token.kind() == kind
}

/// Reads the label at `pos`, if one stands there.
pub(crate) fn read_label(tokens: &Vec<&Token>, pos: usize) -> (result: Result<
    (Option<BooleanExpression>, usize),
    ParserError,
>)
    requires
        pos <= tokens.len(),
    ensures
        match result {
            Ok((label, next)) => syntax::label_at(expression_parser::lexemes(tokens@), pos as int)
                == Ok::<(Option<ExpressionView>, int), ParserErrorView>(
                (
                    match label {
                        Some(l) => Some(l@),
                        None => None,
                    },
                    next as int,
                ),
            ) && pos <= next <= tokens.len(),
            Err(e) => syntax::label_at(expression_parser::lexemes(tokens@), pos as int) == Err::<
                (Option<ExpressionView>, int),
                ParserErrorView,
            >(e@),
        },
{
    if !holds_at(tokens, pos, TokenType::TokenLbracket) {
        return Ok((None, pos));
    }
    let ghost ts = expression_parser::lexemes(tokens@);
    let mut label_tokens: Vec<&Token> = Vec::new();
    let mut at: usize = pos + 1;
    while at < tokens.len() && tokens[at].kind() != TokenType::TokenRbracket
        invariant
            ts == expression_parser::lexemes(tokens@),
            pos + 1 <= at <= tokens.len(),
            syntax::run_end(ts, pos + 1, syntax::Stop::Bracket) == syntax::run_end(
                ts,
                at as int,
                syntax::Stop::Bracket,
            ),
            expression_parser::lexemes(label_tokens@) == ts.subrange(pos + 1, at as int),
        decreases tokens.len() - at,
    {
        let ghost before = label_tokens@;
        label_tokens.push(tokens[at]);
        proof {
            assert(ts[at as int] == tokens@[at as int]@);
            assert(expression_parser::lexemes(label_tokens@) =~= expression_parser::lexemes(
                before,
            ).push(ts[at as int]));
            assert(ts.subrange(pos + 1, at + 1) =~= ts.subrange(pos + 1, at as int).push(
                ts[at as int],
            ));
        }
        at = at + 1;
    }
    let next: usize = if at < tokens.len() {
        at + 1
    } else {
        at
    };
    match expression_parser::parse_alias_expression(&label_tokens) {
        Ok(label_expression) => Ok((Some(label_expression), next)),
        Err(e) => Err(e),
    }
}

/// Reads the acceptance signature at `pos`, if one stands there.
pub(crate) fn read_acc_sig(tokens: &Vec<&Token>, pos: usize) -> (result: Result<
    (Option<Vec<usize>>, usize),
    ParserError,
>)
    requires
        pos <= tokens.len(),
    ensures
        match result {
            Ok((sig, next)) => syntax::acc_sig(expression_parser::lexemes(tokens@), pos as int)
                == Ok::<(Option<Seq<usize>>, int), ParserErrorView>(
                (
                    match sig {
                        Some(s) => Some(s@),
                        None => None,
                    },
                    next as int,
                ),
            ) && pos <= next <= tokens.len(),
            Err(e) => syntax::acc_sig(expression_parser::lexemes(tokens@), pos as int) == Err::<
                (Option<Seq<usize>>, int),
                ParserErrorView,
            >(e@),
        },
{
    if !holds_at(tokens, pos, TokenType::TokenLcurly) {
        return Ok((None, pos));
    }
    let ghost ts = expression_parser::lexemes(tokens@);
    let mut acc_sig_tokens: Vec<usize> = Vec::new();
    let mut at: usize = pos + 1;
    while holds_at(tokens, at, TokenType::TokenInt)
        invariant
            ts == expression_parser::lexemes(tokens@),
            pos + 1 <= at <= tokens.len(),
            syntax::run_end(ts, pos + 1, syntax::Stop::Integers) == syntax::run_end(
                ts,
                at as int,
                syntax::Stop::Integers,
            ),
            acc_sig_tokens@ == syntax::numbers_between(ts, pos + 1, at as int),
        decreases tokens.len() - at,
    {
        acc_sig_tokens.push(tokens[at].unwrap_int());
        assert(acc_sig_tokens@ =~= syntax::numbers_between(ts, pos + 1, at + 1));
        at = at + 1;
    }
    if at >= tokens.len() {
        return Ok((Some(acc_sig_tokens), at));
    }
    match tokens[at] {
        Token::TokenRcurly => Ok((Some(acc_sig_tokens), at + 1)),
        other => Err(
            ParserError::mismatching(
                Token::TokenRcurly.to_string().as_str(),
                other.to_string(),
                "acceptance signature",
            ),
        ),
    }
}

/// The tokens of a state block from `from` on: those up to the next
/// `State:`, `--END--` or the end of the input.
pub(crate) fn state_block_tokens(tokens: &Vec<PositionedToken>, from: usize) -> (taken: Vec<&Token>)
    requires
        from <= tokens.len(),
    ensures
        from + taken.len() <= tokens.len(),
        from + taken.len() == syntax::run_end(
            positioned_lexemes(tokens@),
            from as int,
            syntax::Stop::StateBlock,
        ),
        expression_parser::lexemes(taken@) == positioned_lexemes(tokens@).subrange(
            from as int,
            from + taken.len(),
        ),
{
    let taken = slices::peeking_take_while(tokens, from, continues_state_block);
    proof {
        let ts = positioned_lexemes(tokens@);
        assert forall|i: int| from <= i < from + taken.len() implies !syntax::Stop::StateBlock.at(
            #[trigger] ts[i].kind,
        ) by {
            assert(*taken[i - from] == tokens[from + (i - from)].token);
        }
        syntax::lemma_run_end_is(ts, from as int, syntax::Stop::StateBlock, from + taken.len());
        assert(expression_parser::lexemes(taken@) =~= ts.subrange(
            from as int,
            from + taken.len(),
        ));
    }
    taken
}

/// The texts of those tokens that carry one.
pub(crate) fn header_info_extractor(tokens: &Vec<&Token>) -> (texts: Vec<String>)
    ensures
        string_views(texts@) == syntax::texts_of(expression_parser::lexemes(tokens@)),
{
    let ghost ts = expression_parser::lexemes(tokens@);
    let ghost carries = |t: Lexeme| syntax::is_text_kind(t.kind);
    let ghost name = |t: Lexeme| t.name();
    let mut texts: Vec<String> = Vec::new();
    let mut i: usize = 0;
    proof {
        reveal(Seq::filter);
        assert(ts.take(0) =~= Seq::<Lexeme>::empty());
        assert(string_views(texts@) =~= ts.take(0).filter(carries).map_values(name));
    }
    while i < tokens.len()
        invariant
            ts == expression_parser::lexemes(tokens@),
            carries == |t: Lexeme| syntax::is_text_kind(t.kind),
            name == |t: Lexeme| t.name(),
            i <= tokens.len(),
            string_views(texts@) == ts.take(i as int).filter(carries).map_values(name),
        decreases tokens.len() - i,
    {
        let ghost before = texts@;
        proof {
            reveal(Seq::filter);
            assert(ts.take(i + 1).drop_last() =~= ts.take(i as int));
            assert(ts.take(i + 1).last() == ts[i as int]);
            assert(ts[i as int] == tokens@[i as int]@);
        }
        match tokens[i] {
            Token::TokenIdent(s)
            | Token::TokenString(s)
            | Token::TokenHeaderName(s)
            | Token::TokenAliasName(s) => {
                texts.push(s.clone());
                proof {
                    assert(carries(ts[i as int]));
                    assert(ts.take(i + 1).filter(carries) == ts.take(i as int).filter(
                        carries,
                    ).push(ts[i as int]));
                    assert(string_views(texts@) =~= string_views(before).push(s@));
                    assert(ts.take(i as int).filter(carries).push(ts[i as int]).map_values(name)
                        =~= ts.take(i as int).filter(carries).map_values(name).push(
                        name(ts[i as int]),
                    ));
                }
            },
            _ => {
                assert(!carries(ts[i as int]));
            },
        }
        i = i + 1;
    }
    assert(ts.take(i as int) =~= ts);
    texts
}

/// The items of extra information that the tokens are.
pub(crate) fn read_extra_info(tokens: &Vec<&Token>) -> (result: Result<Vec<AccnameInfo>, ParserError>)
    ensures
        match result {
            Ok(info) => syntax::extra_info(expression_parser::lexemes(tokens@)) == Ok::<
                Seq<AccnameInfoView>,
                ParserErrorView,
            >(info_views(info@)),
            Err(e) => syntax::extra_info(expression_parser::lexemes(tokens@)) == Err::<
                Seq<AccnameInfoView>,
                ParserErrorView,
            >(e@),
        },
{
    let ghost ts = expression_parser::lexemes(tokens@);
    let mut extra_info: Vec<AccnameInfo> = Vec::new();
    let mut i: usize = 0;
    while i < tokens.len()
        invariant
            ts == expression_parser::lexemes(tokens@),
            i <= tokens.len(),
            syntax::run_end(ts, 0, syntax::Stop::ExtraInfo) == syntax::run_end(
                ts,
                i as int,
                syntax::Stop::ExtraInfo,
            ),
            info_views(extra_info@) == Seq::new(i as nat, |k: int| syntax::info_of(ts[k])),
        decreases tokens.len() - i,
    {
        let item = match tokens[i] {
            Token::TokenIdent(ident) => AccnameInfo::StringValue(ident.clone()),
            Token::TokenInt(integer) => AccnameInfo::IntegerValue(*integer),
            Token::TokenTrue => AccnameInfo::BooleanValue(true),
            Token::TokenFalse => AccnameInfo::BooleanValue(false),
            other => {
                return Err(
                    ParserError::mismatching(
                        "identifier, integer or boolean",
                        other.to_string(),
                        "acceptance name extraction",
                    ),
                );
            },
        };
        let ghost before = extra_info@;
        extra_info.push(item);
        proof {
            assert(ts[i as int] == tokens@[i as int]@);
            assert(item@ == syntax::info_of(ts[i as int]));
            assert(info_views(extra_info@) =~= info_views(before).push(item@));
            assert(info_views(extra_info@) =~= Seq::new(
                (i + 1) as nat,
                |k: int| syntax::info_of(ts[k]),
            ));
        }
        i = i + 1;
    }
    Ok(extra_info)
}

/// A parser that reads an automaton from an input and hands it to a consumer.
pub struct HoaParser<'a, 'c, C: HoaConsumer> {
    /// the consumer which receives the automaton
    consumer: &'c mut C,
    /// a lexer that tokenizes the input
    lexer: HoaLexer,
    /// the input, as it was passed in when the parser was made
    input: &'a [u8],
    /// the calls made on the consumer so far
    emitted: Ghost<Seq<ConsumerCall>>,
}

impl<'a, 'c, C: HoaConsumer> HoaParser<'a, 'c, C> {
    /// The calls that the parser has made on its consumer, in their order.
    pub closed spec fn emitted(&self) -> Seq<ConsumerCall> {
        self.emitted@
    }

    /// The bytes of the input.
    pub closed spec fn bytes(&self) -> Seq<u8> {
        self.lexer.bytes()
    }

    /// A parser that reads `input` for `consumer`.
    pub fn new(consumer: &'c mut C, input: &'a [u8]) -> (parser: Self)
        ensures
            parser.bytes() == input@,
            parser.emitted() == Seq::<ConsumerCall>::empty(),
    {
        HoaParser { consumer, input, lexer: HoaLexer::new(input), emitted: Ghost(Seq::empty()) }
    }

    fn emit_header_start(&mut self, version: &String)
        ensures
            final(self).bytes() == old(self).bytes(),
            final(self).emitted() == old(self).emitted().push(
                ConsumerCall::NotifyHeaderStart { version: version@ },
            ),
    {
        self.consumer.notify_header_start(version);
        self.emitted = Ghost(
            self.emitted@.push(ConsumerCall::NotifyHeaderStart { version: version@ }),
        );
    }

    fn emit_number_of_states(&mut self, count: usize)
        ensures
            final(self).bytes() == old(self).bytes(),
            final(self).emitted() == old(self).emitted().push(
                ConsumerCall::SetNumberOfStates { count },
            ),
    {
        self.consumer.set_number_of_states(count);
        self.emitted = Ghost(self.emitted@.push(ConsumerCall::SetNumberOfStates { count }));
    }

    fn emit_start_states(&mut self, states: Vec<usize>)
        ensures
            final(self).bytes() == old(self).bytes(),
            final(self).emitted() == old(self).emitted().push(
                ConsumerCall::AddStartStates { states: states@ },
            ),
    {
        let ghost call = ConsumerCall::AddStartStates { states: states@ };
        self.consumer.add_start_states(states);
        self.emitted = Ghost(self.emitted@.push(call));
    }

    fn emit_aps(&mut self, names: Vec<String>)
        ensures
            final(self).bytes() == old(self).bytes(),
            final(self).emitted() == old(self).emitted().push(
                ConsumerCall::SetAps { names: string_views(names@) },
            ),
    {
        let ghost call = ConsumerCall::SetAps { names: string_views(names@) };
        self.consumer.set_aps(names);
        self.emitted = Ghost(self.emitted@.push(call));
    }

    fn emit_alias(&mut self, name: &String, expr: &BooleanExpression)
        ensures
            final(self).bytes() == old(self).bytes(),
            final(self).emitted() == old(self).emitted().push(
                ConsumerCall::AddAlias { name: name@, expr: expr@ },
            ),
    {
        self.consumer.add_alias(name, expr);
        self.emitted = Ghost(
            self.emitted@.push(ConsumerCall::AddAlias { name: name@, expr: expr@ }),
        );
    }

    fn emit_acceptance_condition(&mut self, sets: usize, expr: &AcceptanceCondition)
        ensures
            final(self).bytes() == old(self).bytes(),
            final(self).emitted() == old(self).emitted().push(
                ConsumerCall::SetAcceptanceCondition { sets, expr: *expr },
            ),
    {
        self.consumer.set_acceptance_condition(sets, expr);
        self.emitted = Ghost(
            self.emitted@.push(ConsumerCall::SetAcceptanceCondition { sets, expr: *expr }),
        );
    }

    fn emit_acceptance_name(&mut self, name: &String, extra_info: &Vec<AccnameInfo>)
        ensures
            final(self).bytes() == old(self).bytes(),
            final(self).emitted() == old(self).emitted().push(
                ConsumerCall::ProvideAcceptanceName {
                    name: name@,
                    extra_info: info_views(extra_info@),
                },
            ),
    {
        self.consumer.provide_acceptance_name(name, extra_info);
        self.emitted = Ghost(
            self.emitted@.push(
                ConsumerCall::ProvideAcceptanceName {
                    name: name@,
                    extra_info: info_views(extra_info@),
                },
            ),
        );
    }

    fn emit_tool(&mut self, info: Vec<String>)
        ensures
            final(self).bytes() == old(self).bytes(),
            final(self).emitted() == old(self).emitted().push(
                ConsumerCall::SetTool { info: string_views(info@) },
            ),
    {
        let ghost call = ConsumerCall::SetTool { info: string_views(info@) };
        self.consumer.set_tool(info);
        self.emitted = Ghost(self.emitted@.push(call));
    }

    fn emit_name(&mut self, name: &String)
        ensures
            final(self).bytes() == old(self).bytes(),
            final(self).emitted() == old(self).emitted().push(ConsumerCall::SetName { name: name@ }),
    {
        self.consumer.set_name(name);
        self.emitted = Ghost(self.emitted@.push(ConsumerCall::SetName { name: name@ }));
    }

    fn emit_properties(&mut self, props: Vec<String>)
        ensures
            final(self).bytes() == old(self).bytes(),
            final(self).emitted() == old(self).emitted().push(
                ConsumerCall::AddProperties { props: string_views(props@) },
            ),
    {
        let ghost call = ConsumerCall::AddProperties { props: string_views(props@) };
        self.consumer.add_properties(props);
        self.emitted = Ghost(self.emitted@.push(call));
    }

    fn emit_state(
        &mut self,
        number: usize,
        name: Option<&String>,
        label: Option<&BooleanExpression>,
        acc_sig: Option<&Vec<usize>>,
    )
        ensures
            final(self).bytes() == old(self).bytes(),
            final(self).emitted() == old(self).emitted().push(
                ConsumerCall::AddState {
                    number,
                    name: name_view(name),
                    label: label_view(label),
                    acc_sig: sig_view(acc_sig),
                },
            ),
    {
        self.consumer.add_state(number, name, label, acc_sig);
        self.emitted = Ghost(
            self.emitted@.push(
                ConsumerCall::AddState {
                    number,
                    name: name_view(name),
                    label: label_view(label),
                    acc_sig: sig_view(acc_sig),
                },
            ),
        );
    }

    fn emit_edge_with_label(
        &mut self,
        state: usize,
        label: &BooleanExpression,
        targets: &Vec<usize>,
        acc_sig: Option<&Vec<usize>>,
    )
        ensures
            final(self).bytes() == old(self).bytes(),
            final(self).emitted() == old(self).emitted().push(
                ConsumerCall::AddEdgeWithLabel {
                    state,
                    label: label@,
                    targets: targets@,
                    acc_sig: sig_view(acc_sig),
                },
            ),
    {
        self.consumer.add_edge_with_label(state, label, targets, acc_sig);
        self.emitted = Ghost(
            self.emitted@.push(
                ConsumerCall::AddEdgeWithLabel {
                    state,
                    label: label@,
                    targets: targets@,
                    acc_sig: sig_view(acc_sig),
                },
            ),
        );
    }

    fn emit_edge_implicit(&mut self, state: usize, targets: &Vec<usize>, acc_sig: Option<&Vec<usize>>)
        ensures
            final(self).bytes() == old(self).bytes(),
            final(self).emitted() == old(self).emitted().push(
                ConsumerCall::AddEdgeImplicit {
                    state,
                    targets: targets@,
                    acc_sig: sig_view(acc_sig),
                },
            ),
    {
        self.consumer.add_edge_implicit(state, targets, acc_sig);
        self.emitted = Ghost(
            self.emitted@.push(
                ConsumerCall::AddEdgeImplicit {
                    state,
                    targets: targets@,
                    acc_sig: sig_view(acc_sig),
                },
            ),
        );
    }

    fn emit_end_of_state(&mut self, state: usize)
        ensures
            final(self).bytes() == old(self).bytes(),
            final(self).emitted() == old(self).emitted().push(
                ConsumerCall::NotifyEndOfState { state },
            ),
    {
        self.consumer.notify_end_of_state(state);
        self.emitted = Ghost(self.emitted@.push(ConsumerCall::NotifyEndOfState { state }));
    }

    /// Reads the edges of a state from `from` on and hands each to the consumer.
    fn handle_edges(
        &mut self,
        state_number: usize,
        state_label_expr: Option<&BooleanExpression>,
        tokens: &Vec<&Token>,
        from: usize,
    ) -> (result: Result<(), ParserError>)
        requires
            from <= tokens.len(),
        ensures
            final(self).bytes() == old(self).bytes(),
            block_done(
                old(self).emitted(),
                final(self).emitted(),
                result,
                syntax::edges_from(
                    expression_parser::lexemes(tokens@),
                    from as int,
                    state_number,
                    label_view(state_label_expr),
                ),
            ),
    {
        let ghost ts = expression_parser::lexemes(tokens@);
        let ghost inherited = label_view(state_label_expr);
        let ghost mut done: Seq<ConsumerCall> = Seq::empty();
        let mut pos: usize = from;
        assert(old(self).emitted() + done =~= old(self).emitted());
        assert(done + syntax::edges_from(ts, from as int, state_number, inherited).calls
            =~= syntax::edges_from(ts, from as int, state_number, inherited).calls);
        while pos < tokens.len()
            invariant
                from <= pos <= tokens.len(),
                ts == expression_parser::lexemes(tokens@),
                inherited == label_view(state_label_expr),
                self.bytes() == old(self).bytes(),
                self.emitted() == old(self).emitted() + done,
                syntax::edges_from(ts, from as int, state_number, inherited) == (syntax::Step {
                    calls: done,
                    end: Ok(pos as int),
                }).followed_by(syntax::edges_from(ts, pos as int, state_number, inherited)),
            decreases tokens.len() - pos,
        {
            proof {
                syntax::lemma_edge_at(ts, pos as int, state_number, inherited);
            }
            // the label of the edge, where it has one of its own
            let (own, behind_label) = match read_label(tokens, pos) {
                Ok(read) => read,
                Err(e) => {
                    assert(done + Seq::<ConsumerCall>::empty() =~= done);
                    return Err(e);
                },
            };
            // the states that the edge leads to
            let (state_conj, behind_targets) = match expression_parser::parse_state_conjunction(
                tokens,
                behind_label,
            ) {
                Ok(read) => read,
                Err(e) => {
                    assert(done + Seq::<ConsumerCall>::empty() =~= done);
                    return Err(e);
                },
            };
            // the acceptance signature, where there is one
            let (acc_sig, next) = match read_acc_sig(tokens, behind_targets) {
                Ok(read) => read,
                Err(e) => {
                    assert(done + Seq::<ConsumerCall>::empty() =~= done);
                    return Err(e);
                },
            };
            let label_expr: Option<&BooleanExpression> = match &own {
                Some(l) => Some(l),
                None => state_label_expr,
            };
            let ghost edge = syntax::edge_at(ts, pos as int, state_number, inherited);
            let ghost rest = syntax::edges_from(ts, next as int, state_number, inherited);
            match label_expr {
                Some(le) => {
                    // we have a labelled edge
                    self.emit_edge_with_label(state_number, le, &state_conj, acc_sig.as_ref());
                },
                None => {
                    // we have an implicit edge
                    self.emit_edge_implicit(state_number, &state_conj, acc_sig.as_ref());
                },
            }
            proof {
                assert(edge.calls.len() == 1);
                assert(self.emitted() =~= old(self).emitted() + (done + edge.calls));
                assert(done + (edge.calls + rest.calls) =~= (done + edge.calls) + rest.calls);
                done = done + edge.calls;
            }
            pos = next;
        }
        assert(done + Seq::<ConsumerCall>::empty() =~= done);
        Ok(())
    }

    /// Reads the block of one state, `tokens` being the tokens behind its
    /// `State:`, and hands the state and its edges to the consumer.
    fn handle_state(&mut self, tokens: Vec<&Token>) -> (result: Result<(), ParserError>)
        ensures
            final(self).bytes() == old(self).bytes(),
            block_done(
                old(self).emitted(),
                final(self).emitted(),
                result,
                syntax::state_block(expression_parser::lexemes(tokens@)),
            ),
    {
        let ghost ts = expression_parser::lexemes(tokens@);
        assert(old(self).emitted() + Seq::<ConsumerCall>::empty() =~= old(self).emitted());
        // the label of the state, where it has one
        let (label_expression, at) = match read_label(&tokens, 0) {
            Ok(read) => read,
            Err(e) => {
                return Err(e);
            },
        };
        // the number of the state
        if at >= tokens.len() {
            return Err(ParserError::missing("Integer (state identifier)", "state extraction"));
        }
        let state_number = match tokens[at] {
            Token::TokenInt(number) => *number,
            actual => {
                return Err(
                    ParserError::mismatching(
                        "Integer (state identifier)",
                        actual.to_string(),
                        "state extraction",
                    ),
                );
            },
        };
        let mut pos: usize = at + 1;
        let state_name: Option<&String> = if pos < tokens.len() {
            match tokens[pos] {
                Token::TokenString(name) => {
                    pos = pos + 1;
                    Some(name)
                },
                _ => None,
            }
        } else {
            None
        };
        let (acc_sig, behind_sig) = match read_acc_sig(&tokens, pos) {
            Ok(read) => read,
            Err(e) => {
                return Err(e);
            },
        };
        let label_expr: Option<&BooleanExpression> = label_expression.as_ref();
        let sig: Option<&Vec<usize>> = acc_sig.as_ref();
        self.emit_state(state_number, state_name, label_expr, sig);
        let ghost declared = syntax::Step::one(
            ConsumerCall::AddState {
                number: state_number,
                name: name_view(state_name),
                label: label_view(label_expr),
                acc_sig: sig_view(sig),
            },
            behind_sig as int,
        );
        let ghost edges = syntax::edges_from(
            ts,
            behind_sig as int,
            state_number,
            label_view(label_expr),
        );
        assert(self.emitted() =~= old(self).emitted() + declared.calls);
        match self.handle_edges(state_number, label_expr, &tokens, behind_sig) {
            Ok(_) => {},
            Err(e) => {
                assert(self.emitted() =~= old(self).emitted() + (declared.calls + edges.calls));
                return Err(e);
            },
        }
        self.emit_end_of_state(state_number);
        assert(self.emitted() =~= old(self).emitted() + ((declared.calls + edges.calls)
            + seq![ConsumerCall::NotifyEndOfState { state: state_number }]));
        Ok(())
    }

    /// Reads `HOA:` and the version, and tells the consumer that the header starts.
    fn header_start(&mut self, tokens: &Vec<PositionedToken>) -> (result: Result<
        usize,
        ParserError,
    >)
        ensures
            final(self).bytes() == old(self).bytes(),
            carried_out(
                old(self).emitted(),
                final(self).emitted(),
                result,
                syntax::preamble(positioned_lexemes(tokens@)),
            ),
            result matches Ok(next) ==> next <= tokens.len(),
    {
        assert(old(self).emitted() + Seq::<ConsumerCall>::empty() =~= old(self).emitted());
        let _hoa = match expect_at(Token::TokenHoa, tokens, 0, "HOA header extraction") {
            Ok(token) => token,
            Err(e) => {
                return Err(e);
            },
        };
        let hoa_version = match expect_at(identifier_token(), tokens, 1, "HOA version") {
            Ok(token) => token.token.unwrap_str(),
            Err(e) => {
                return Err(e);
            },
        };
        self.emit_header_start(hoa_version);
        assert(self.emitted() =~= old(self).emitted() + seq![
            ConsumerCall::NotifyHeaderStart { version: hoa_version@ },
        ]);
        Ok(2)
    }

    /// Reads the header item whose keyword stands at `pos` and hands it to the consumer.
    #[verifier::loop_isolation(false)]
    fn header_item(&mut self, tokens: &Vec<PositionedToken>, pos: usize) -> (result: Result<
        usize,
        ParserError,
    >)
        requires
            pos < tokens.len(),
            syntax::starts_header_item(positioned_lexemes(tokens@)[pos as int].kind),
        ensures
            final(self).bytes() == old(self).bytes(),
            carried_out(
                old(self).emitted(),
                final(self).emitted(),
                result,
                syntax::header_item(positioned_lexemes(tokens@), pos as int),
            ),
    {
        let ghost ts = positioned_lexemes(tokens@);
        assert(old(self).emitted() + Seq::<ConsumerCall>::empty() =~= old(self).emitted());
        match tokens[pos].token.kind() {
            TokenType::TokenStates => {
                // the next token has to be an integer
                let count = match expect_at(
                    Token::TokenInt(0),
                    tokens,
                    pos + 1,
                    "state number extraction (int)",
                ) {
                    Ok(token) => token.token.unwrap_int(),
                    Err(e) => {
                        return Err(e);
                    },
                };
                self.emit_number_of_states(count);
                assert(self.emitted() =~= old(self).emitted() + seq![
                    ConsumerCall::SetNumberOfStates { count },
                ]);
                Ok(pos + 2)
            },
            TokenType::TokenStart => {
                let mut start_states: Vec<usize> = Vec::new();
                // there has to be at least one state
                let first = match expect_at(
                    integer_token(),
                    tokens,
                    pos + 1,
                    "first initial state",
                ) {
                    Ok(token) => token.token.unwrap_int(),
                    Err(e) => {
                        return Err(e);
                    },
                };
                start_states.push(first);
                let mut at: usize = pos + 2;
                assert(start_states@ =~= syntax::numbers_between(ts, pos + 1, at as int));
                // any further integers are start states too
                while stands_at(tokens, at, TokenType::TokenInt)
                    invariant
                        ts == positioned_lexemes(tokens@),
                        pos + 2 <= at <= tokens.len(),
                        syntax::run_end(ts, pos + 1, syntax::Stop::Integers) == syntax::run_end(
                            ts,
                            at as int,
                            syntax::Stop::Integers,
                        ),
                        start_states@ == syntax::numbers_between(ts, pos + 1, at as int),
                    decreases tokens.len() - at,
                {
                    start_states.push(tokens[at].token.unwrap_int());
                    assert(start_states@ =~= syntax::numbers_between(ts, pos + 1, at + 1));
                    at = at + 1;
                }
                let ghost call = ConsumerCall::AddStartStates { states: start_states@ };
                self.emit_start_states(start_states);
                assert(self.emitted() =~= old(self).emitted() + seq![call]);
                Ok(at)
            },
            TokenType::TokenAp => {
                let num_aps = match expect_at(integer_token(), tokens, pos + 1, "num_aps") {
                    Ok(token) => token.token.unwrap_int(),
                    Err(e) => {
                        return Err(e);
                    },
                };
                if num_aps < 1 {
                    return Err(ParserError::ZeroAtomicPropositions);
                }
                // extract the atomic propositions

                let mut aps: Vec<String> = Vec::new();
                let mut at: usize = pos + 2;
                assert(string_views(aps@) =~= syntax::names_between(ts, pos + 2, at as int));
                while aps.len() < num_aps
                    invariant
                        ts == positioned_lexemes(tokens@),
                        pos + 2 <= at <= tokens.len(),
                        at == pos + 2 + aps.len(),
                        aps.len() <= num_aps,
                        syntax::run_end(ts, pos + 2, syntax::Stop::Strings) == syntax::run_end(
                            ts,
                            at as int,
                            syntax::Stop::Strings,
                        ),
                        string_views(aps@) == syntax::names_between(ts, pos + 2, at as int),
                    decreases num_aps - aps.len(),
                {
                    let name = match expect_at(string_token(), tokens, at, "ap extraction") {
                        Ok(token) => token.token.unwrap_str().clone(),
                        Err(e) => {
                            assert(syntax::run_end(ts, at as int, syntax::Stop::Strings) == at);
                            return Err(e);
                        },
                    };
                    let ghost before = aps@;
                    aps.push(name);
                    proof {
                        assert(string_views(aps@) =~= string_views(before).push(name@));
                        assert(string_views(aps@) =~= syntax::names_between(ts, pos + 2, at + 1));
                    }
                    at = at + 1;
                }
                proof {
                    syntax::lemma_run_end(ts, at as int, syntax::Stop::Strings);
                }
                let ghost call = ConsumerCall::SetAps { names: string_views(aps@) };
                self.emit_aps(aps);
                assert(self.emitted() =~= old(self).emitted() + seq![call]);
                Ok(at)
            },
            TokenType::TokenAlias => {
                // the name of the alias and the expression it stands for
                let alias_name = match expect_at(
                    alias_name_token(),
                    tokens,
                    pos + 1,
                    "alias_name",
                ) {
                    Ok(token) => token.token.unwrap_str(),
                    Err(e) => {
                        return Err(e);
                    },
                };
                let alias_expr_tokens = header_item_tokens(tokens, pos + 2);
                let alias_expr = match expression_parser::parse_alias_expression(
                    &alias_expr_tokens,
                ) {
                    Ok(expr) => expr,
                    Err(e) => {
                        return Err(e);
                    },
                };
                self.emit_alias(alias_name, &alias_expr);
                assert(self.emitted() =~= old(self).emitted() + seq![
                    ConsumerCall::AddAlias { name: alias_name@, expr: alias_expr@ },
                ]);
                Ok(pos + 2 + alias_expr_tokens.len())
            },
            TokenType::TokenAcceptance => {
                let num_acceptance_sets = match expect_at(
                    integer_token(),
                    tokens,
                    pos + 1,
                    "number of acceptance sets",
                ) {
                    Ok(token) => token.token.unwrap_int(),
                    Err(e) => {
                        return Err(e);
                    },
                };
                let acceptance_expr_tokens = header_item_tokens(tokens, pos + 2);
                let acceptance_expr = match expression_parser::parse_acceptance_expression(
                    &acceptance_expr_tokens,
                ) {
                    Ok(expr) => expr,
                    Err(e) => {
                        return Err(e);
                    },
                };
                self.emit_acceptance_condition(num_acceptance_sets, &acceptance_expr);
                assert(self.emitted() =~= old(self).emitted() + seq![
                    ConsumerCall::SetAcceptanceCondition {
                        sets: num_acceptance_sets,
                        expr: acceptance_expr,
                    },
                ]);
                Ok(pos + 2 + acceptance_expr_tokens.len())
            },
            TokenType::TokenAccname => {
                let acc_name = match expect_at(
                    identifier_token(),
                    tokens,
                    pos + 1,
                    "acceptance name extraction",
                ) {
                    Ok(token) => token.token.unwrap_str(),
                    Err(e) => {
                        return Err(e);
                    },
                };
                let extra_info_tokens = header_item_tokens(tokens, pos + 2);
                let extra_info = match read_extra_info(&extra_info_tokens) {
                    Ok(info) => info,
                    Err(e) => {
                        return Err(e);
                    },
                };
                self.emit_acceptance_name(acc_name, &extra_info);
                assert(self.emitted() =~= old(self).emitted() + seq![
                    ConsumerCall::ProvideAcceptanceName {
                        name: acc_name@,
                        extra_info: info_views(extra_info@),
                    },
                ]);
                Ok(pos + 2 + extra_info_tokens.len())
            },
            TokenType::TokenTool => {
                let info_tokens = header_item_tokens(tokens, pos + 1);
                let tool_info = header_info_extractor(&info_tokens);
                let ghost call = ConsumerCall::SetTool { info: string_views(tool_info@) };
                self.emit_tool(tool_info);
                assert(self.emitted() =~= old(self).emitted() + seq![call]);
                Ok(pos + 1 + info_tokens.len())
            },
            TokenType::TokenName => {
                let name_info = match expect_at(
                    string_token(),
                    tokens,
                    pos + 1,
                    "token name info",
                ) {
                    Ok(token) => token.token.unwrap_str(),
                    Err(e) => {
                        return Err(e);
                    },
                };
                self.emit_name(name_info);
                assert(self.emitted() =~= old(self).emitted() + seq![
                    ConsumerCall::SetName { name: name_info@ },
                ]);
                Ok(pos + 2)
            },
            TokenType::TokenProperties => {
                let info_tokens = header_item_tokens(tokens, pos + 1);
                let properties_info = header_info_extractor(&info_tokens);
                let ghost call = ConsumerCall::AddProperties {
                    props: string_views(properties_info@),
                };
                self.emit_properties(properties_info);
                assert(self.emitted() =~= old(self).emitted() + seq![call]);
                Ok(pos + 1 + info_tokens.len())
            },
            _ => {
                // a header that is not known: what it holds is not handed on
                let unused_info = header_item_tokens(tokens, pos + 1);
                Ok(pos + 1 + unused_info.len())
            },
        }
    }

    /// Reads the header items from `from` on, up to and with `--BODY--`.
    fn header_section(&mut self, tokens: &Vec<PositionedToken>, from: usize) -> (result: Result<
        usize,
        ParserError,
    >)
        requires
            from <= tokens.len(),
        ensures
            final(self).bytes() == old(self).bytes(),
            carried_out(
                old(self).emitted(),
                final(self).emitted(),
                result,
                syntax::header_from(positioned_lexemes(tokens@), from as int),
            ),
            result matches Ok(next) ==> from < next <= tokens.len(),
    {
        let ghost ts = positioned_lexemes(tokens@);
        let ghost mut done: Seq<ConsumerCall> = Seq::empty();
        let mut pos: usize = from;
        assert(old(self).emitted() + done =~= old(self).emitted());
        assert(done + syntax::header_from(ts, from as int).calls =~= syntax::header_from(
            ts,
            from as int,
        ).calls);
        loop
            invariant
                from <= pos <= tokens.len(),
                ts == positioned_lexemes(tokens@),
                self.bytes() == old(self).bytes(),
                self.emitted() == old(self).emitted() + done,
                syntax::header_from(ts, from as int) == (syntax::Step {
                    calls: done,
                    end: Ok(pos as int),
                }).followed_by(syntax::header_from(ts, pos as int)),
            decreases tokens.len() - pos,
        {
            assert(done + Seq::<ConsumerCall>::empty() =~= done);
            let is_item = pos < tokens.len() && match tokens[pos].token.kind() {
                TokenType::TokenStates
                | TokenType::TokenStart
                | TokenType::TokenAp
                | TokenType::TokenAlias
                | TokenType::TokenAcceptance
                | TokenType::TokenAccname
                | TokenType::TokenTool
                | TokenType::TokenName
                | TokenType::TokenProperties
                | TokenType::TokenHeaderName => true,
                _ => false,
            };
            if !is_item {
                // the header ends here, and it has to end with the body token
                return match expect_at(Token::TokenBody, tokens, pos, "body token") {
                    Ok(_) => Ok(pos + 1),
                    Err(e) => Err(e),
                };
            }
            proof {
                syntax::lemma_header_item(ts, pos as int);
            }
            let ghost item = syntax::header_item(ts, pos as int);
            let ghost before = self.emitted();
            let next = match self.header_item(tokens, pos) {
                Ok(next) => next,
                Err(e) => {
                    assert(self.emitted() =~= old(self).emitted() + (done + item.calls));
                    return Err(e);
                },
            };
            proof {
                let rest = syntax::header_from(ts, next as int);
                assert(self.emitted() =~= old(self).emitted() + (done + item.calls));
                assert(done + (item.calls + rest.calls) =~= (done + item.calls) + rest.calls);
                done = done + item.calls;
            }
            pos = next;
        }
    }

    /// Reads the state blocks from `from` on.
    fn body_section(&mut self, tokens: &Vec<PositionedToken>, from: usize) -> (result: Result<
        usize,
        ParserError,
    >)
        requires
            from <= tokens.len(),
        ensures
            final(self).bytes() == old(self).bytes(),
            carried_out(
                old(self).emitted(),
                final(self).emitted(),
                result,
                syntax::states_from(positioned_lexemes(tokens@), from as int),
            ),
            result matches Ok(next) ==> from <= next <= tokens.len(),
    {
        let ghost ts = positioned_lexemes(tokens@);
        let ghost mut done: Seq<ConsumerCall> = Seq::empty();
        let mut pos: usize = from;
        assert(old(self).emitted() + done =~= old(self).emitted());
        assert(done + syntax::states_from(ts, from as int).calls =~= syntax::states_from(
            ts,
            from as int,
        ).calls);
        while stands_at(tokens, pos, TokenType::TokenState)
            invariant
                from <= pos <= tokens.len(),
                ts == positioned_lexemes(tokens@),
                self.bytes() == old(self).bytes(),
                self.emitted() == old(self).emitted() + done,
                syntax::states_from(ts, from as int) == (syntax::Step {
                    calls: done,
                    end: Ok(pos as int),
                }).followed_by(syntax::states_from(ts, pos as int)),
            decreases tokens.len() - pos,
        {
            let state_tokens = state_block_tokens(tokens, pos + 1);
            let next: usize = pos + 1 + state_tokens.len();
            let ghost block = syntax::state_block(ts.subrange(pos + 1, next as int));
            match self.handle_state(state_tokens) {
                Ok(_) => {},
                Err(e) => {
                    assert(self.emitted() =~= old(self).emitted() + (done + block.calls));
                    return Err(e);
                },
            }
            proof {
                let rest = syntax::states_from(ts, next as int);
                assert(self.emitted() =~= old(self).emitted() + (done + block.calls));
                assert(done + (block.calls + rest.calls) =~= (done + block.calls) + rest.calls);
                done = done + block.calls;
            }
            pos = next;
        }
        // all states have been read
        assert(done + Seq::<ConsumerCall>::empty() =~= done);
        Ok(pos)
    }

    /// Reads the automaton from the input and hands it to the consumer, call
    /// by call, in the order of the input.  The calls made before an error
    /// stay made.
    pub fn automaton(&mut self) -> (result: Result<(), ParserError>)
        ensures
            final(self).bytes() == old(self).bytes(),
            match crate::lexer::grammar::tokens_of(old(self).bytes()) {
                Err(fault) => {
                    &&& final(self).emitted() == old(self).emitted()
                    &&& result matches Err(e)
                    &&& e@ == (ParserErrorView::LexingError { message: fault.rendered() })
                },
                Ok(views) => {
                    let outcome = syntax::automaton(typed_lexemes(views));
                    &&& final(self).emitted() == old(self).emitted() + outcome.calls
                    &&& match result {
                        Ok(_) => outcome.result is Ok,
                        Err(e) => outcome.result == Err::<(), ParserErrorView>(e@),
                    }
                },
            },
            (result matches Err(ParserError::LexingError { .. })) <==> (
            crate::lexer::grammar::tokens_of(old(self).bytes()) is Err),
            !(result matches Err(ParserError::ExpressionParsingError { .. })),
    {
        proof {
            match crate::lexer::grammar::tokens_of(self.bytes()) {
                Ok(views) => {
                    laws::lemma_errors_are_of_the_parser(typed_lexemes(views));
                },
                Err(fault) => {},
            }
        }
        let raw = match self.lexer.tokenize() {
            Ok(raw) => raw,
            Err(fault) => {
                return Err(lexing_error(fault));
            },
        };
        let tokens = typed_tokens(&raw);
        let ghost ts = positioned_lexemes(tokens@);
        let ghost start = syntax::preamble(ts);
        let behind_start = match self.header_start(&tokens) {
            Ok(next) => next,
            Err(e) => {
                return Err(e);
            },
        };
        let ghost header = syntax::header_from(ts, behind_start as int);
        let behind_header = match self.header_section(&tokens, behind_start) {
            Ok(next) => next,
            Err(e) => {
                assert(self.emitted() =~= old(self).emitted() + (start.calls + header.calls));
                return Err(e);
            },
        };
        let ghost body = syntax::states_from(ts, behind_header as int);
        let behind_body = match self.body_section(&tokens, behind_header) {
            Ok(next) => next,
            Err(e) => {
                assert(self.emitted() =~= old(self).emitted() + ((start.calls + header.calls)
                    + body.calls));
                return Err(e);
            },
        };
        assert(self.emitted() =~= old(self).emitted() + ((start.calls + header.calls)
            + body.calls));
        match expect_at(Token::TokenEnd, &tokens, behind_body, "end of automaton") {
            Ok(_) => {},
            Err(e) => {
                return Err(e);
            },
        }
        match expect_at(Token::TokenEof, &tokens, behind_body + 1, "end of file") {
            Ok(_) => {},
            Err(e) => {
                return Err(e);
            },
        }
        // no error was met
        Ok(())
    }
}

} // verus!
