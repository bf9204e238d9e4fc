//! Recursive-descent parsers for the two expression grammars of the format.
//!
//! Both grammars have the same shape:
//!
//! ```text
//! expr     := conjunct [ '|' expr ]
//! conjunct := term [ '&' expr ]
//! term     := atom | '!' term | '(' expr ')'
//! ```
//!
//! The right operand of `&` is a whole `expr`, so `a & b | c` is `a & (b | c)`.

use vstd::prelude::*;
use crate::lexer::token::Token;
use crate::lexer::{Lexeme, TokenType};
use crate::parser::expression::{
    AcceptanceCondition,
    AcceptanceIdent,
    AtomView,
    BooleanAtom,
    BooleanExpression,
    ExpressionView,
};
use crate::parser::{ParserError, ParserErrorView};
use crate::text::is_text;

verus! {

/// What the tokens are, one lexeme for each.
pub open spec fn lexemes(tokens: Seq<&Token>) -> Seq<Lexeme> {
    tokens.map_values(|t: &Token| t@)
}

/// Whether the token at `pos` exists and has the given category.
pub open spec fn holds(ts: Seq<Lexeme>, pos: int, kind: TokenType) -> bool {
    0 <= pos < ts.len() && ts[pos].kind == kind
}

/// The error of a rule that ran out of input or met a token it has no use for.
pub open spec fn unexpected_end(message: Seq<char>) -> ParserErrorView {
    ParserErrorView::UnexpectedEnd { message }
}

/// A term of the alias grammar that starts at `pos`: an integer, an alias
/// name, `t`, `f`, `!` before a term, or an expression in parentheses.
pub open spec fn alias_term(ts: Seq<Lexeme>, pos: int) -> Result<
    (ExpressionView, int),
    ParserErrorView,
>
    decreases ts.len() - pos, 0int,
{
    if !(0 <= pos < ts.len()) {
        Err(unexpected_end("Unexpected end of input, expected parenteses or identifier"@))
    } else {
        match ts[pos].kind {
            TokenType::TokenInt => Ok(
                (ExpressionView::Atom(AtomView::IntegerValue(ts[pos].number())), pos + 1),
            ),
            TokenType::TokenAliasName => Ok(
                (ExpressionView::Atom(AtomView::AliasName(ts[pos].name())), pos + 1),
            ),
            TokenType::TokenTrue => Ok(
                (ExpressionView::Atom(AtomView::BooleanValue(true)), pos + 1),
            ),
            TokenType::TokenFalse => Ok(
                (ExpressionView::Atom(AtomView::BooleanValue(false)), pos + 1),
            ),
            TokenType::TokenNot => match alias_term(ts, pos + 1) {
                Ok((node, next)) => Ok((node.not(), next)),
                Err(e) => Err(e),
            },
            TokenType::TokenLparenth => match alias_expr(ts, pos + 1) {
                Ok((node, next)) => if holds(ts, next, TokenType::TokenRparenth) {
                    Ok((node, next + 1))
                } else if 0 <= next < ts.len() {
                    Err(unexpected_end("expected closing paren"@))
                } else {
                    Err(unexpected_end("Expected closing paren"@))
                },
                Err(e) => Err(e),
            },
            _ => Err(unexpected_end("expected atom, not what we got"@)),
        }
    }
}

/// A conjunct of the alias grammar: a term, and after `&` a whole expression.
/// (A term never ends where it starts; the comparison of `pos` and `next`
/// says so to the termination check.)
pub open spec fn alias_conjunct(ts: Seq<Lexeme>, pos: int) -> Result<
    (ExpressionView, int),
    ParserErrorView,
>
    decreases ts.len() - pos, 1int,
{
    match alias_term(ts, pos) {
        Ok((node, next)) => if pos < next && holds(ts, next, TokenType::TokenAnd) {
            match alias_expr(ts, next + 1) {
                Ok((rhs, end)) => Ok((node.and(rhs), end)),
                Err(e) => Err(e),
            }
        } else {
            Ok((node, next))
        },
        Err(e) => Err(e),
    }
}

/// An expression of the alias grammar: a conjunct, and after `|` another expression.
pub open spec fn alias_expr(ts: Seq<Lexeme>, pos: int) -> Result<
    (ExpressionView, int),
    ParserErrorView,
>
    decreases ts.len() - pos, 2int,
{
    match alias_conjunct(ts, pos) {
        Ok((node, next)) => if pos < next && holds(ts, next, TokenType::TokenOr) {
            match alias_expr(ts, next + 1) {
                Ok((rhs, end)) => Ok((node.or(rhs), end)),
                Err(e) => Err(e),
            }
        } else {
            Ok((node, next))
        },
        Err(e) => Err(e),
    }
}

/// The alias expression that the tokens start with.
pub open spec fn alias_expression(ts: Seq<Lexeme>) -> Result<ExpressionView, ParserErrorView> {
    match alias_expr(ts, 0) {
        Ok((node, _)) => Ok(node),
        Err(e) => Err(e),
    }
}

/// The error for a token that stands where another one is required.
pub open spec fn mismatch(expected: Seq<char>, actual: Lexeme, context: Seq<char>) -> ParserErrorView {
    ParserErrorView::MismatchingToken { expected, actual: actual.rendered(), context }
}

/// The acceptance atom `Fin` or `Inf` whose name stands at `pos`: the name,
/// `(`, a set number or `!` and a set number, and `)`.
pub open spec fn acceptance_atom(ts: Seq<Lexeme>, pos: int) -> Result<
    (AcceptanceCondition, int),
    ParserErrorView,
> {
    let name = ts[pos].name();
    if name != "Fin"@ && name != "Inf"@ {
        Err(ParserErrorView::UnknownToken { message: name })
    } else if !(pos + 1 < ts.len()) {
        Err(unexpected_end("expected acceptance set"@))
    } else if ts[pos + 1].kind != TokenType::TokenLparenth {
        Err(mismatch("opening paren"@, ts[pos + 1], "acceptance condition parsing"@))
    } else if !(pos + 2 < ts.len()) {
        Err(unexpected_end("Fin or Inf need to be followed by ! INTEGER or just INTEGER"@))
    } else {
        let negated = ts[pos + 2].kind == TokenType::TokenNot;
        let at = if negated {
            pos + 3
        } else {
            pos + 2
        };
        if !holds(ts, at, TokenType::TokenInt) {
            if negated {
                Err(
                    unexpected_end(
                        "Negation in Fin or Inf needs to be followed by an integer"@,
                    ),
                )
            } else {
                Err(
                    unexpected_end(
                        "Inf or Fin need to be followed by Negation symbol or INTEGER"@,
                    ),
                )
            }
        } else if !(at + 1 < ts.len()) {
            Err(unexpected_end("expected closing paren after the acceptance set"@))
        } else if ts[at + 1].kind != TokenType::TokenRparenth {
            Err(mismatch("closing paren"@, ts[at + 1], "acceptance condition parsing"@))
        } else {
            let set = ts[at].number();
            let plain = if name == "Fin"@ {
                AcceptanceIdent::Fin(set)
            } else {
                AcceptanceIdent::Inf(set)
            };
            let atom = if negated {
                plain.negated()
            } else {
                plain
            };
            Ok((AcceptanceCondition::Atom(atom), at + 2))
        }
    }
}

/// A term of the acceptance grammar that starts at `pos`: an atom `Fin` or
/// `Inf`, `t`, `f`, or an expression in parentheses.
pub open spec fn acceptance_term(ts: Seq<Lexeme>, pos: int) -> Result<
    (AcceptanceCondition, int),
    ParserErrorView,
>
    decreases ts.len() - pos, 0int,
{
    if !(0 <= pos < ts.len()) {
        Err(unexpected_end("Unexpected end of input, expected Fin, Inf, parentheses or boolean"@))
    } else {
        match ts[pos].kind {
            TokenType::TokenIdent => acceptance_atom(ts, pos),
            TokenType::TokenTrue => Ok((AcceptanceCondition::BooleanValue(true), pos + 1)),
            TokenType::TokenFalse => Ok((AcceptanceCondition::BooleanValue(false), pos + 1)),
            TokenType::TokenLparenth => match acceptance_expr(ts, pos + 1) {
                Ok((node, next)) => if holds(ts, next, TokenType::TokenRparenth) {
                    Ok((node, next + 1))
                } else {
                    Err(unexpected_end("Expected closing param"@))
                },
                Err(e) => Err(e),
            },
            _ => Err(unexpected_end("Expected atom, not whatever we got"@)),
        }
    }
}

/// A conjunct of the acceptance grammar: a term, and after `&` a whole expression.
pub open spec fn acceptance_conjunct(ts: Seq<Lexeme>, pos: int) -> Result<
    (AcceptanceCondition, int),
    ParserErrorView,
>
    decreases ts.len() - pos, 1int,
{
    match acceptance_term(ts, pos) {
        Ok((node, next)) => if pos < next && holds(ts, next, TokenType::TokenAnd) {
            match acceptance_expr(ts, next + 1) {
                Ok((rhs, end)) => Ok((node.and(rhs), end)),
                Err(e) => Err(e),
            }
        } else {
            Ok((node, next))
        },
        Err(e) => Err(e),
    }
}

/// An expression of the acceptance grammar: a conjunct, and after `|` another expression.
pub open spec fn acceptance_expr(ts: Seq<Lexeme>, pos: int) -> Result<
    (AcceptanceCondition, int),
    ParserErrorView,
>
    decreases ts.len() - pos, 2int,
{
    match acceptance_conjunct(ts, pos) {
        Ok((node, next)) => if pos < next && holds(ts, next, TokenType::TokenOr) {
            match acceptance_expr(ts, next + 1) {
                Ok((rhs, end)) => Ok((node.or(rhs), end)),
                Err(e) => Err(e),
            }
        } else {
            Ok((node, next))
        },
        Err(e) => Err(e),
    }
}

/// The acceptance condition that the tokens start with.
pub open spec fn acceptance_expression(ts: Seq<Lexeme>) -> Result<
    AcceptanceCondition,
    ParserErrorView,
> {
    match acceptance_expr(ts, 0) {
        Ok((node, _)) => Ok(node),
        Err(e) => Err(e),
    }
}

/// Parses a term of the alias grammar that starts at `pos`.
pub fn parse_expr_alias_term(tokens: &Vec<&Token>, pos: usize) -> (result: Result<
    (BooleanExpression, usize),
    ParserError,
>)
    ensures
        crate::parser::step_view(result) == alias_term(lexemes(tokens@), pos as int),
        result matches Ok((_, next)) ==> pos < next <= tokens.len(),
    decreases tokens.len() - pos, 0int,
{
    if pos >= tokens.len() {
        return Err(
            ParserError::unexpected_end(
                "Unexpected end of input, expected parenteses or identifier",
            ),
        );
    }
    let token: &Token = tokens[pos];
    match token {
        Token::TokenInt(ap) => Ok((BooleanExpression::Atom(BooleanAtom::bint(*ap)), pos + 1)),
        Token::TokenAliasName(aname) => Ok(
            (BooleanExpression::Atom(BooleanAtom::balias(aname.as_str())), pos + 1),
        ),
        Token::TokenTrue => Ok((BooleanExpression::Atom(BooleanAtom::btrue()), pos + 1)),
        Token::TokenFalse => Ok((BooleanExpression::Atom(BooleanAtom::bfalse()), pos + 1)),
        Token::TokenNot => match parse_expr_alias_term(tokens, pos + 1) {
            Ok((node, next)) => Ok((node.not(), next)),
            Err(e) => Err(e),
        },
        Token::TokenLparenth => match parse_expr_alias(tokens, pos + 1) {
            Ok((node, next)) => {
                if next >= tokens.len() {
                    Err(ParserError::unexpected_end("Expected closing paren"))
                } else {
                    match tokens[next] {
                        Token::TokenRparenth => Ok((node, next + 1)),
                        _ => Err(ParserError::unexpected_end("expected closing paren")),
                    }
                }
            },
            Err(e) => Err(e),
        },
        _ => Err(ParserError::unexpected_end("expected atom, not what we got")),
    }
}

/// Parses a conjunct of the alias grammar that starts at `pos`.
pub fn parse_expr_alias_conjunct(tokens: &Vec<&Token>, pos: usize) -> (result: Result<
    (BooleanExpression, usize),
    ParserError,
>)
    ensures
        crate::parser::step_view(result) == alias_conjunct(lexemes(tokens@), pos as int),
        result matches Ok((_, next)) ==> pos < next <= tokens.len(),
    decreases tokens.len() - pos, 1int,
{
    let (node_atom, next_pos) = match parse_expr_alias_term(tokens, pos) {
        Ok(step) => step,
        Err(e) => {
            return Err(e);
        },
    };
    if next_pos < tokens.len() {
        match tokens[next_pos] {
            Token::TokenAnd => {
                return match parse_expr_alias(tokens, next_pos + 1) {
                    Ok((rhs, i)) => Ok((node_atom.and(rhs), i)),
                    Err(e) => Err(e),
                };
            },
            _ => {},
        }
    }
    Ok((node_atom, next_pos))
}

/// Parses an expression of the alias grammar that starts at `pos`.
pub fn parse_expr_alias(tokens: &Vec<&Token>, pos: usize) -> (result: Result<
    (BooleanExpression, usize),
    ParserError,
>)
    ensures
        crate::parser::step_view(result) == alias_expr(lexemes(tokens@), pos as int),
        result matches Ok((_, next)) ==> pos < next <= tokens.len(),
    decreases tokens.len() - pos, 2int,
{
    let (node_atom, next_pos) = match parse_expr_alias_conjunct(tokens, pos) {
        Ok(step) => step,
        Err(e) => {
            return Err(e);
        },
    };
    if next_pos < tokens.len() {
        match tokens[next_pos] {
            Token::TokenOr => {
                return match parse_expr_alias(tokens, next_pos + 1) {
                    Ok((rhs, i)) => Ok((node_atom.or(rhs), i)),
                    Err(e) => Err(e),
                };
            },
            _ => {},
        }
    }
    Ok((node_atom, next_pos))
}

/// Parses the alias expression that the tokens start with.  What follows the
/// expression is not looked at.
pub fn parse_alias_expression(tokens: &Vec<&Token>) -> (result: Result<
    BooleanExpression,
    ParserError,
>)
    ensures
        match result {
            Ok(node) => alias_expression(lexemes(tokens@)) == Ok::<
                ExpressionView,
                ParserErrorView,
            >(node@),
            Err(e) => alias_expression(lexemes(tokens@)) == Err::<
                ExpressionView,
                ParserErrorView,
            >(e@),
        },
{
    match parse_expr_alias(tokens, 0) {
        Ok((node, _)) => Ok(node),
        Err(e) => Err(e),
    }
}

/// Parses a term of the acceptance grammar that starts at `pos`.
pub fn parse_expr_acceptance_term(tokens: &Vec<&Token>, pos: usize) -> (result: Result<
    (AcceptanceCondition, usize),
    ParserError,
>)
    ensures
        crate::parser::step_view(result) == acceptance_term(lexemes(tokens@), pos as int),
        result matches Ok((_, next)) ==> pos < next <= tokens.len(),
    decreases tokens.len() - pos, 0int,
{
    if pos >= tokens.len() {
        return Err(
            ParserError::unexpected_end(
                "Unexpected end of input, expected Fin, Inf, parentheses or boolean",
            ),
        );
    }
    let token: &Token = tokens[pos];
    match token {
        Token::TokenIdent(ident) => {
            let is_fin = is_text(ident, "Fin");
            if !is_fin && !is_text(ident, "Inf") {
                return Err(ParserError::UnknownToken { message: ident.clone() });
            }
            // an opening parenthesis has to follow

            if pos + 1 >= tokens.len() {
                return Err(ParserError::unexpected_end("expected acceptance set"));
            }
            match tokens[pos + 1] {
                Token::TokenLparenth => {},
                t => {
                    return Err(
                        ParserError::mismatching(
                            "opening paren",
                            t.to_string(),
                            "acceptance condition parsing",
                        ),
                    );
                },
            }
            if pos + 2 >= tokens.len() {
                return Err(
                    ParserError::unexpected_end(
                        "Fin or Inf need to be followed by ! INTEGER or just INTEGER",
                    ),
                );
            }
            // the set may have a negation in front of it

            let negated = match tokens[pos + 2] {
                Token::TokenNot => true,
                _ => false,
            };
            let at: usize = if negated {
                pos + 3
            } else {
                pos + 2
            };
            let set_identifier: usize = if at < tokens.len() {
                match tokens[at] {
                    Token::TokenInt(set_identifier) => *set_identifier,
                    _ => {
                        return Err(
                            if negated {
                                ParserError::unexpected_end(
                                    "Negation in Fin or Inf needs to be followed by an integer",
                                )
                            } else {
                                ParserError::unexpected_end(
                                    "Inf or Fin need to be followed by Negation symbol or INTEGER",
                                )
                            },
                        );
                    },
                }
            } else {
                return Err(
                    ParserError::unexpected_end(
                        "Negation in Fin or Inf needs to be followed by an integer",
                    ),
                );
            };
            if at + 1 >= tokens.len() {
                return Err(
                    ParserError::unexpected_end("expected closing paren after the acceptance set"),
                );
            }
            match tokens[at + 1] {
                Token::TokenRparenth => {},
                t => {
                    return Err(
                        ParserError::mismatching(
                            "closing paren",
                            t.to_string(),
                            "acceptance condition parsing",
                        ),
                    );
                },
            }
            let plain = if is_fin {
                AcceptanceIdent::Fin(set_identifier)
            } else {
                AcceptanceIdent::Inf(set_identifier)
            };
            let atom = if negated {
                plain.not()
            } else {
                plain
            };
            Ok((AcceptanceCondition::Atom(atom), at + 2))
        },
        Token::TokenLparenth => match parse_expr_acceptance(tokens, pos + 1) {
            Ok((node, next_pos)) => {
                if next_pos < tokens.len() {
                    match tokens[next_pos] {
                        Token::TokenRparenth => {
                            return Ok((node, next_pos + 1));
                        },
                        _ => {},
                    }
                }
                Err(ParserError::unexpected_end("Expected closing param"))
            },
            Err(e) => Err(e),
        },
        Token::TokenTrue => Ok((AcceptanceCondition::BooleanValue(true), pos + 1)),
        Token::TokenFalse => Ok((AcceptanceCondition::BooleanValue(false), pos + 1)),
        _ => Err(ParserError::unexpected_end("Expected atom, not whatever we got")),
    }
}

/// Parses a conjunct of the acceptance grammar that starts at `pos`.
pub fn parse_expr_acceptance_conjunct(tokens: &Vec<&Token>, pos: usize) -> (result: Result<
    (AcceptanceCondition, usize),
    ParserError,
>)
    ensures
        crate::parser::step_view(result) == acceptance_conjunct(lexemes(tokens@), pos as int),
        result matches Ok((_, next)) ==> pos < next <= tokens.len(),
    decreases tokens.len() - pos, 1int,
{
    let (node_atom, next_pos) = match parse_expr_acceptance_term(tokens, pos) {
        Ok(step) => step,
        Err(e) => {
            return Err(e);
        },
    };
    if next_pos < tokens.len() {
        match tokens[next_pos] {
            Token::TokenAnd => {
                return match parse_expr_acceptance(tokens, next_pos + 1) {
                    Ok((rhs, i)) => Ok((node_atom.and(rhs), i)),
                    Err(e) => Err(e),
                };
            },
            _ => {},
        }
    }
    Ok((node_atom, next_pos))
}

/// Parses an expression of the acceptance grammar that starts at `pos`.
pub fn parse_expr_acceptance(tokens: &Vec<&Token>, pos: usize) -> (result: Result<
    (AcceptanceCondition, usize),
    ParserError,
>)
    ensures
        crate::parser::step_view(result) == acceptance_expr(lexemes(tokens@), pos as int),
        result matches Ok((_, next)) ==> pos < next <= tokens.len(),
    decreases tokens.len() - pos, 2int,
{
    let (node_atom, next_pos) = match parse_expr_acceptance_conjunct(tokens, pos) {
        Ok(step) => step,
        Err(e) => {
            return Err(e);
        },
    };
    if next_pos < tokens.len() {
        match tokens[next_pos] {
            Token::TokenOr => {
                return match parse_expr_acceptance(tokens, next_pos + 1) {
                    Ok((rhs, i)) => Ok((node_atom.or(rhs), i)),
                    Err(e) => Err(e),
                };
            },
            _ => {},
        }
    }
    Ok((node_atom, next_pos))
}

/// Parses the acceptance condition that the tokens start with.  What follows
/// the condition is not looked at.
pub fn parse_acceptance_expression(tokens: &Vec<&Token>) -> (result: Result<
    AcceptanceCondition,
    ParserError,
>)
    ensures
        match result {
            Ok(node) => acceptance_expression(lexemes(tokens@)) == Ok::<
                AcceptanceCondition,
                ParserErrorView,
            >(node),
            Err(e) => acceptance_expression(lexemes(tokens@)) == Err::<
                AcceptanceCondition,
                ParserErrorView,
            >(e@),
        },
{
    match parse_expr_acceptance(tokens, 0) {
        Ok((node, _)) => Ok(node),
        Err(e) => Err(e),
    }
}

/// Parses the states that an edge leads to, joined by `&`, from `pos` on.
pub fn parse_state_conjunction(tokens: &Vec<&Token>, pos: usize) -> (result: Result<
    (Vec<usize>, usize),
    ParserError,
>)
    ensures
        crate::parser::step_view(result) == crate::parser::syntax::state_conjunction(
            lexemes(tokens@),
            pos as int,
        ),
        result matches Ok((_, next)) ==> pos < next <= tokens.len(),
{
    let mut states: Vec<usize> = Vec::new();
    let mut at: usize = pos;
    let ghost ts = lexemes(tokens@);
    loop
        invariant
            ts == lexemes(tokens@),
            pos <= at,
            at == pos || at <= tokens.len(),
            match crate::parser::syntax::state_conjunction(ts, at as int) {
                Ok((rest, end)) => crate::parser::syntax::state_conjunction(ts, pos as int) == Ok::<
                    (Seq<usize>, int),
                    ParserErrorView,
                >((states@ + rest, end)),
                Err(e) => crate::parser::syntax::state_conjunction(ts, pos as int) == Err::<
                    (Seq<usize>, int),
                    ParserErrorView,
                >(e),
            },
        decreases tokens.len() - at,
    {
        if at >= tokens.len() {
            return Err(
                ParserError::missing(
                    Token::TokenInt(0).to_string().as_str(),
                    "state conjunction",
                ),
            );
        }
        let state = match tokens[at] {
            Token::TokenInt(state) => *state,
            Token::TokenEof => {
                return Err(
                    ParserError::missing(
                        Token::TokenInt(0).to_string().as_str(),
                        "state conjunction",
                    ),
                );
            },
            other => {
                return Err(
                    ParserError::mismatching(
                        Token::TokenInt(0).to_string().as_str(),
                        other.to_string(),
                        "state conjunction",
                    ),
                );
            },
        };
        proof {
            match crate::parser::syntax::state_conjunction(ts, at + 2) {
                Ok((rest, end)) => {
                    assert(states@ + (seq![state] + rest) =~= states@.push(state) + rest);
                },
                Err(e) => {},
            }
            assert(states@ + seq![state] =~= states@.push(state));
        }
        states.push(state);
        if at + 1 < tokens.len() {
            match tokens[at + 1] {
                Token::TokenAnd => {
                    at = at + 2;
                    continue ;
                },
                _ => {},
            }
        }
        return Ok((states, at + 1));
    }
}

/// Whether the token can stand in an alias expression.
pub fn is_alias_expression_token(token: &Token) -> (is: bool)
    ensures
        is == in_alias_expression(token@.kind),
{
    match token {
        Token::TokenNot
        | Token::TokenAnd
        | Token::TokenOr
        | Token::TokenLparenth
        | Token::TokenRparenth
        | Token::TokenTrue
        | Token::TokenFalse
        | Token::TokenAliasName(_)
        | Token::TokenInt(_) => true,
        _ => false,
    }
}

/// Whether a token of this category can stand in an alias expression: an
/// operator, a parenthesis, a literal, an alias name or an integer.
pub open spec fn in_alias_expression(kind: TokenType) -> bool {
    kind == TokenType::TokenNot || kind == TokenType::TokenAnd || kind == TokenType::TokenOr
        || kind == TokenType::TokenLparenth || kind == TokenType::TokenRparenth || kind
        == TokenType::TokenTrue || kind == TokenType::TokenFalse || kind
        == TokenType::TokenAliasName || kind == TokenType::TokenInt
}

/// The value of a token that is an atom of the alias grammar by itself.
pub open spec fn alias_atom(token: Lexeme) -> AtomView {
    match token.kind {
        TokenType::TokenInt => AtomView::IntegerValue(token.number()),
        TokenType::TokenAliasName => AtomView::AliasName(token.name()),
        TokenType::TokenTrue => AtomView::BooleanValue(true),
        _ => AtomView::BooleanValue(false),
    }
}

/// Whether a token is an atom of the alias grammar by itself.
pub open spec fn is_alias_atom(token: Lexeme) -> bool {
    token.kind == TokenType::TokenInt || token.kind == TokenType::TokenAliasName || token.kind
        == TokenType::TokenTrue || token.kind == TokenType::TokenFalse
}

/// A token that is an atom by itself is a term, a conjunct and an expression
/// where no operator follows it.
proof fn lemma_single_atom(ts: Seq<Lexeme>, pos: int)
    requires
        0 <= pos < ts.len(),
        is_alias_atom(ts[pos]),
    ensures
        alias_term(ts, pos) == Ok::<(ExpressionView, int), ParserErrorView>(
            (ExpressionView::Atom(alias_atom(ts[pos])), pos + 1),
        ),
        !holds(ts, pos + 1, TokenType::TokenAnd) ==> alias_conjunct(ts, pos) == alias_term(
            ts,
            pos,
        ),
        !holds(ts, pos + 1, TokenType::TokenAnd) && !holds(ts, pos + 1, TokenType::TokenOr)
            ==> alias_expr(ts, pos) == alias_term(ts, pos),
{
}

/// An acceptance atom written with `!` before its set is the negation of the
/// atom written without: `Fin(!n)` is the negation of `Fin(n)`, and so for `Inf`.
pub proof fn lemma_negated_atom_is_negation_of_atom(name: Seq<char>, set: usize)
    requires
        name == "Fin"@ || name == "Inf"@,
    ensures
        ({
            let ident = Lexeme::with_text(TokenType::TokenIdent, name);
            let open = Lexeme::plain(TokenType::TokenLparenth);
            let close = Lexeme::plain(TokenType::TokenRparenth);
            let not = Lexeme::plain(TokenType::TokenNot);
            let number = Lexeme::with_int(TokenType::TokenInt, set);
            &&& acceptance_expression(seq![ident, open, number, close]) matches Ok(
                AcceptanceCondition::Atom(atom),
            )
            &&& acceptance_expression(seq![ident, open, not, number, close]) == Ok::<
                AcceptanceCondition,
                ParserErrorView,
            >(AcceptanceCondition::Atom(atom.negated()))
        }),
{
    let ident = Lexeme::with_text(TokenType::TokenIdent, name);
    let open = Lexeme::plain(TokenType::TokenLparenth);
    let close = Lexeme::plain(TokenType::TokenRparenth);
    let not = Lexeme::plain(TokenType::TokenNot);
    let number = Lexeme::with_int(TokenType::TokenInt, set);
    let plain = seq![ident, open, number, close];
    let negated = seq![ident, open, not, number, close];
    let atom = if name == "Fin"@ {
        AcceptanceIdent::Fin(set)
    } else {
        AcceptanceIdent::Inf(set)
    };
    assert(acceptance_atom(plain, 0) == Ok::<(AcceptanceCondition, int), ParserErrorView>(
        (AcceptanceCondition::Atom(atom), 4),
    ));
    assert(acceptance_term(plain, 0) == acceptance_atom(plain, 0));
    assert(acceptance_conjunct(plain, 0) == acceptance_term(plain, 0));
    assert(acceptance_expr(plain, 0) == acceptance_conjunct(plain, 0));
    assert(acceptance_atom(negated, 0) == Ok::<(AcceptanceCondition, int), ParserErrorView>(
        (AcceptanceCondition::Atom(atom.negated()), 5),
    ));
    assert(acceptance_term(negated, 0) == acceptance_atom(negated, 0));
    assert(acceptance_conjunct(negated, 0) == acceptance_term(negated, 0));
    assert(acceptance_expr(negated, 0) == acceptance_conjunct(negated, 0));
}

/// A reference to an alias parses to that reference, whatever the name: the
/// parser keeps no list of the aliases that were declared.
pub proof fn lemma_any_alias_name_is_accepted(name: Seq<char>)
    ensures
        alias_expression(seq![Lexeme::with_text(TokenType::TokenAliasName, name)]) == Ok::<
            ExpressionView,
            ParserErrorView,
        >(ExpressionView::Atom(AtomView::AliasName(name))),
{
    let ts = seq![Lexeme::with_text(TokenType::TokenAliasName, name)];
    lemma_single_atom(ts, 0);
}

/// `!` binds to the term that follows it: `!a | b` is `(!a) | b`.
pub proof fn lemma_not_binds_to_next_term(a: Lexeme, b: Lexeme)
    requires
        is_alias_atom(a),
        is_alias_atom(b),
    ensures
        alias_expression(
            seq![Lexeme::plain(TokenType::TokenNot), a, Lexeme::plain(TokenType::TokenOr), b],
        ) == Ok::<ExpressionView, ParserErrorView>(
            ExpressionView::Atom(alias_atom(a)).not().or(ExpressionView::Atom(alias_atom(b))),
        ),
{
    let ts = seq![Lexeme::plain(TokenType::TokenNot), a, Lexeme::plain(TokenType::TokenOr), b];
    lemma_single_atom(ts, 1);
    lemma_single_atom(ts, 3);
    assert(alias_term(ts, 0) == Ok::<(ExpressionView, int), ParserErrorView>(
        (ExpressionView::Atom(alias_atom(a)).not(), 2),
    ));
    assert(alias_conjunct(ts, 0) == alias_term(ts, 0));
}

/// The right operand of `&` takes what follows up to the end: `a & b | c` is
/// `a & (b | c)`, and `a | b & c` is `a | (b & c)`.
pub proof fn lemma_and_absorbs_following_or(a: Lexeme, b: Lexeme, c: Lexeme)
    requires
        is_alias_atom(a),
        is_alias_atom(b),
        is_alias_atom(c),
    ensures
        alias_expression(
            seq![a, Lexeme::plain(TokenType::TokenAnd), b, Lexeme::plain(TokenType::TokenOr), c],
        ) == Ok::<ExpressionView, ParserErrorView>(
            ExpressionView::Atom(alias_atom(a)).and(
                ExpressionView::Atom(alias_atom(b)).or(ExpressionView::Atom(alias_atom(c))),
            ),
        ),
        alias_expression(
            seq![a, Lexeme::plain(TokenType::TokenOr), b, Lexeme::plain(TokenType::TokenAnd), c],
        ) == Ok::<ExpressionView, ParserErrorView>(
            ExpressionView::Atom(alias_atom(a)).or(
                ExpressionView::Atom(alias_atom(b)).and(ExpressionView::Atom(alias_atom(c))),
            ),
        ),
{
    let and_or = seq![
        a,
        Lexeme::plain(TokenType::TokenAnd),
        b,
        Lexeme::plain(TokenType::TokenOr),
        c,
    ];
    lemma_single_atom(and_or, 0);
    lemma_single_atom(and_or, 2);
    lemma_single_atom(and_or, 4);
    assert(alias_conjunct(and_or, 2) == alias_term(and_or, 2));
    assert(alias_expr(and_or, 2) == Ok::<(ExpressionView, int), ParserErrorView>(
        (ExpressionView::Atom(alias_atom(b)).or(ExpressionView::Atom(alias_atom(c))), 5),
    ));
    assert(alias_conjunct(and_or, 0) == Ok::<(ExpressionView, int), ParserErrorView>(
        (
            ExpressionView::Atom(alias_atom(a)).and(
                ExpressionView::Atom(alias_atom(b)).or(ExpressionView::Atom(alias_atom(c))),
            ),
            5,
        ),
    ));
    let or_and = seq![
        a,
        Lexeme::plain(TokenType::TokenOr),
        b,
        Lexeme::plain(TokenType::TokenAnd),
        c,
    ];
    lemma_single_atom(or_and, 0);
    lemma_single_atom(or_and, 2);
    lemma_single_atom(or_and, 4);
    assert(alias_conjunct(or_and, 2) == Ok::<(ExpressionView, int), ParserErrorView>(
        (ExpressionView::Atom(alias_atom(b)).and(ExpressionView::Atom(alias_atom(c))), 5),
    ));
    assert(alias_expr(or_and, 2) == alias_conjunct(or_and, 2));
    assert(alias_conjunct(or_and, 0) == alias_term(or_and, 0));
}

} // verus!
