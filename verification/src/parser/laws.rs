//! What holds of every parse.

use vstd::prelude::*;
use crate::lexer::{Lexeme, TokenType};
use crate::parser::expression::ExpressionView;
use crate::parser::expression_parser;
use crate::parser::syntax;
use crate::parser::ParserErrorView;

verus! {

/// Whether the header items from `from` on are read without error up to
/// `pos`, where the next one starts.
pub open spec fn header_reaches(ts: Seq<Lexeme>, from: int, pos: int) -> bool
    decreases ts.len() - from,
{
    from == pos || (0 <= from < ts.len() && syntax::starts_header_item(ts[from].kind)
        && match syntax::header_item(ts, from).end {
        Ok(next) => from < next <= ts.len() && header_reaches(ts, next, pos),
        Err(e) => false,
    })
}

/// `AP:` with the number 0 is refused with the error for zero atomic
/// propositions, whatever stands behind it, wherever in the header it is
/// read, and no call is made for it.
pub proof fn lemma_zero_atomic_propositions_in_header(ts: Seq<Lexeme>, from: int, pos: int)
    requires
        header_reaches(ts, from, pos),
        expression_parser::holds(ts, pos, TokenType::TokenAp),
        expression_parser::holds(ts, pos + 1, TokenType::TokenInt),
        ts[pos + 1].number() == 0,
    ensures
        syntax::header_from(ts, from).end == Err::<int, ParserErrorView>(
            ParserErrorView::ZeroAtomicPropositions,
        ),
        syntax::header_item(ts, pos).calls == Seq::<crate::consumer::ConsumerCall>::empty(),
    decreases ts.len() - from,
{
    if from != pos {
        let next = syntax::header_item(ts, from).end->Ok_0;
        lemma_zero_atomic_propositions_in_header(ts, next, pos);
    }
}

/// An input whose header declares zero atomic propositions is refused with
/// the error for that, whatever stands behind the declaration: the start of
/// the header and the items before the declaration being read without error.
pub proof fn lemma_zero_atomic_propositions_are_refused(ts: Seq<Lexeme>, pos: int)
    requires
        syntax::preamble(ts).end is Ok,
        header_reaches(ts, 2, pos),
        expression_parser::holds(ts, pos, TokenType::TokenAp),
        expression_parser::holds(ts, pos + 1, TokenType::TokenInt),
        ts[pos + 1].number() == 0,
    ensures
        syntax::automaton(ts).result == Err::<(), ParserErrorView>(
            ParserErrorView::ZeroAtomicPropositions,
        ),
{
    lemma_zero_atomic_propositions_in_header(ts, 2, pos);
}

/// An input without `--END--` is not accepted.
pub proof fn lemma_input_without_end_is_refused(ts: Seq<Lexeme>)
    requires
        forall|i: int| 0 <= i < ts.len() ==> (#[trigger] ts[i]).kind != TokenType::TokenEnd,
    ensures
        syntax::automaton(ts).result is Err,
{
}

/// An input that ends where `--END--` is due is refused with the error for
/// a missing token that names `--END--`: the header and the states before
/// being read without error.
pub proof fn lemma_missing_end_is_a_missing_token(ts: Seq<Lexeme>, behind_header: int, end: int)
    requires
        syntax::preamble(ts).end is Ok,
        syntax::header_from(ts, 2).end == Ok::<int, ParserErrorView>(behind_header),
        syntax::states_from(ts, behind_header).end == Ok::<int, ParserErrorView>(end),
        !(0 <= end < ts.len()) || ts[end].kind == TokenType::TokenEof,
    ensures
        syntax::automaton(ts).result == Err::<(), ParserErrorView>(
            ParserErrorView::MissingToken {
                expected: "--END--"@,
                context: "end of automaton"@,
            },
        ),
{
}

/// A term, a conjunct and an expression of the alias grammar end behind
/// their start and within the tokens, and every token they read is one that
/// can stand in an alias expression.
pub proof fn lemma_alias_expression_tokens(ts: Seq<Lexeme>, pos: int, rank: int)
    requires
        0 <= rank <= 2,
    ensures
        ({
            let parsed = if rank == 0 {
                expression_parser::alias_term(ts, pos)
            } else if rank == 1 {
                expression_parser::alias_conjunct(ts, pos)
            } else {
                expression_parser::alias_expr(ts, pos)
            };
            parsed matches Ok((_, next)) ==> pos < next <= ts.len() && forall|i: int|
                pos <= i < next ==> expression_parser::in_alias_expression(
                    (#[trigger] ts[i]).kind,
                )
        }),
    decreases ts.len() - pos, rank,
{
    if rank == 0 {
        if 0 <= pos < ts.len() {
            if ts[pos].kind == TokenType::TokenNot {
                lemma_alias_expression_tokens(ts, pos + 1, 0);
            } else if ts[pos].kind == TokenType::TokenLparenth {
                lemma_alias_expression_tokens(ts, pos + 1, 2);
            }
        }
    } else if rank == 1 {
        lemma_alias_expression_tokens(ts, pos, 0);
        match expression_parser::alias_term(ts, pos) {
            Ok((_, next)) => {
                if pos < next && expression_parser::holds(ts, next, TokenType::TokenAnd) {
                    lemma_alias_expression_tokens(ts, next + 1, 2);
                }
            },
            Err(e) => {},
        }
    } else {
        lemma_alias_expression_tokens(ts, pos, 1);
        match expression_parser::alias_conjunct(ts, pos) {
            Ok((_, next)) => {
                if pos < next && expression_parser::holds(ts, next, TokenType::TokenOr) {
                    lemma_alias_expression_tokens(ts, next + 1, 2);
                }
            },
            Err(e) => {},
        }
    }
}

/// A term, a conjunct and an expression of the alias grammar end with no
/// error but those of the parser.
pub proof fn lemma_alias_errors(ts: Seq<Lexeme>, pos: int, rank: int)
    requires
        0 <= rank <= 2,
    ensures
        rank == 0 ==> (expression_parser::alias_term(ts, pos) matches Err(e)
            ==> e.is_of_the_parser()),
        rank == 1 ==> (expression_parser::alias_conjunct(ts, pos) matches Err(e)
            ==> e.is_of_the_parser()),
        rank == 2 ==> (expression_parser::alias_expr(ts, pos) matches Err(e)
            ==> e.is_of_the_parser()),
    decreases ts.len() - pos, rank,
{
    if rank == 0 {
        if 0 <= pos < ts.len() {
            if ts[pos].kind == TokenType::TokenNot {
                lemma_alias_errors(ts, pos + 1, 0);
            } else if ts[pos].kind == TokenType::TokenLparenth {
                lemma_alias_errors(ts, pos + 1, 2);
            }
        }
    } else if rank == 1 {
        lemma_alias_errors(ts, pos, 0);
        match expression_parser::alias_term(ts, pos) {
            Ok((_, next)) => {
                if pos < next && expression_parser::holds(ts, next, TokenType::TokenAnd) {
                    lemma_alias_errors(ts, next + 1, 2);
                }
            },
            Err(e) => {},
        }
    } else {
        lemma_alias_errors(ts, pos, 1);
        match expression_parser::alias_conjunct(ts, pos) {
            Ok((_, next)) => {
                if pos < next && expression_parser::holds(ts, next, TokenType::TokenOr) {
                    lemma_alias_errors(ts, next + 1, 2);
                }
            },
            Err(e) => {},
        }
    }
}

/// A term, a conjunct and an expression of the acceptance grammar end with
/// no error but those of the parser.
pub proof fn lemma_acceptance_errors(ts: Seq<Lexeme>, pos: int, rank: int)
    requires
        0 <= rank <= 2,
    ensures
        rank == 0 ==> (expression_parser::acceptance_term(ts, pos) matches Err(e)
            ==> e.is_of_the_parser()),
        rank == 1 ==> (expression_parser::acceptance_conjunct(ts, pos) matches Err(e)
            ==> e.is_of_the_parser()),
        rank == 2 ==> (expression_parser::acceptance_expr(ts, pos) matches Err(e)
            ==> e.is_of_the_parser()),
    decreases ts.len() - pos, rank,
{
    if rank == 0 {
        if 0 <= pos < ts.len() && ts[pos].kind == TokenType::TokenLparenth {
            lemma_acceptance_errors(ts, pos + 1, 2);
        }
    } else if rank == 1 {
        lemma_acceptance_errors(ts, pos, 0);
        match expression_parser::acceptance_term(ts, pos) {
            Ok((_, next)) => {
                if pos < next && expression_parser::holds(ts, next, TokenType::TokenAnd) {
                    lemma_acceptance_errors(ts, next + 1, 2);
                }
            },
            Err(e) => {},
        }
    } else {
        lemma_acceptance_errors(ts, pos, 1);
        match expression_parser::acceptance_conjunct(ts, pos) {
            Ok((_, next)) => {
                if pos < next && expression_parser::holds(ts, next, TokenType::TokenOr) {
                    lemma_acceptance_errors(ts, next + 1, 2);
                }
            },
            Err(e) => {},
        }
    }
}

/// A conjunction of states ends with no error but those of the parser.
pub proof fn lemma_state_conjunction_errors(ts: Seq<Lexeme>, pos: int)
    ensures
        (syntax::state_conjunction(ts, pos) matches Err(e)
            ==> e.is_of_the_parser()),
    decreases ts.len() - pos,
{
    if expression_parser::holds(ts, pos, TokenType::TokenInt) && expression_parser::holds(
        ts,
        pos + 1,
        TokenType::TokenAnd,
    ) {
        lemma_state_conjunction_errors(ts, pos + 2);
    }
}

/// The edges of a state end with no error but those of the parser.
pub proof fn lemma_edges_errors(
    ts: Seq<Lexeme>,
    pos: int,
    state: usize,
    inherited: Option<ExpressionView>,
)
    ensures
        (syntax::edges_from(ts, pos, state, inherited).end matches Err(e)
            ==> e.is_of_the_parser()),
    decreases ts.len() - pos,
{
    if 0 <= pos < ts.len() {
        if expression_parser::holds(ts, pos, TokenType::TokenLbracket) {
            lemma_alias_errors(
                ts.subrange(pos + 1, syntax::run_end(ts, pos + 1, syntax::Stop::Bracket)),
                0,
                2,
            );
        }
        match syntax::label_at(ts, pos) {
            Ok((_, behind_label)) => {
                lemma_state_conjunction_errors(ts, behind_label);
            },
            Err(e) => {},
        }
        match syntax::edge_at(ts, pos, state, inherited).end {
            Ok(next) => {
                if pos < next <= ts.len() {
                    lemma_edges_errors(ts, next, state, inherited);
                }
            },
            Err(e) => {},
        }
    }
}

/// The block of a state ends with no error but those of the parser.
pub proof fn lemma_state_block_errors(ts: Seq<Lexeme>)
    ensures
        (syntax::state_block(ts).end matches Err(e)
            ==> e.is_of_the_parser()),
{
    if expression_parser::holds(ts, 0, TokenType::TokenLbracket) {
        lemma_alias_errors(ts.subrange(1, syntax::run_end(ts, 1, syntax::Stop::Bracket)), 0, 2);
    }
    match syntax::label_at(ts, 0) {
        Ok((label, at)) => {
            if expression_parser::holds(ts, at, TokenType::TokenInt) {
                let behind_name = if expression_parser::holds(ts, at + 1, TokenType::TokenString) {
                    at + 2
                } else {
                    at + 1
                };
                match syntax::acc_sig(ts, behind_name) {
                    Ok((_, behind_sig)) => {
                        lemma_edges_errors(ts, behind_sig, ts[at].number(), label);
                    },
                    Err(e) => {},
                }
            }
        },
        Err(e) => {},
    }
}

/// The state blocks end with no error but those of the parser.
pub proof fn lemma_states_errors(ts: Seq<Lexeme>, pos: int)
    ensures
        (syntax::states_from(ts, pos).end matches Err(e)
            ==> e.is_of_the_parser()),
    decreases ts.len() - pos,
{
    if expression_parser::holds(ts, pos, TokenType::TokenState) {
        let end = syntax::run_end(ts, pos + 1, syntax::Stop::StateBlock);
        lemma_state_block_errors(ts.subrange(pos + 1, end));
        if pos < end <= ts.len() {
            lemma_states_errors(ts, end);
        }
    }
}

/// The header ends with no error but those of the parser.
pub proof fn lemma_header_errors(ts: Seq<Lexeme>, pos: int)
    ensures
        (syntax::header_from(ts, pos).end matches Err(e)
            ==> e.is_of_the_parser()),
    decreases ts.len() - pos,
{
    if 0 <= pos < ts.len() && syntax::starts_header_item(ts[pos].kind) {
        let end = syntax::run_end(ts, pos + 2, syntax::Stop::HeaderItem);
        lemma_alias_errors(ts.subrange(pos + 2, end), 0, 2);
        lemma_acceptance_errors(ts.subrange(pos + 2, end), 0, 2);
        match syntax::header_item(ts, pos).end {
            Ok(next) => {
                if pos < next <= ts.len() {
                    lemma_header_errors(ts, next);
                }
            },
            Err(e) => {},
        }
    }
}

/// A sequence of tokens is refused with an error of the parser only: the
/// error of the lexer comes from splitting the input into tokens, never from
/// reading them, and no input gives the error of an expression that was
/// expected.
pub proof fn lemma_errors_are_of_the_parser(ts: Seq<Lexeme>)
    ensures
        (syntax::automaton(ts).result matches Err(e)
            ==> e.is_of_the_parser()),
{
    lemma_header_errors(ts, 2);
    match syntax::preamble(ts).followed_by(syntax::header_from(ts, 2)).end {
        Ok(behind_header) => {
            lemma_states_errors(ts, behind_header);
        },
        Err(e) => {},
    }
}

} // verus!
