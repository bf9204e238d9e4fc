//! What an input asks of the consumer: the grammar of the header and the
//! body of an automaton, stated over the tokens of the input.
//!
//! The end-of-input marker counts as the end of the input: nothing reads
//! across it, and a token that is required where it stands is missing.

use vstd::prelude::*;
use crate::consumer::{AccnameInfoView, ConsumerCall};
use crate::lexer::{Lexeme, TokenType};
use crate::parser::expression::ExpressionView;
use crate::parser::expression_parser;
use crate::parser::ParserErrorView;

verus! {

/// Where a run of tokens ends.
pub enum Stop {
    /// At the next header keyword, at `--BODY--` and at the end of the input.
    HeaderItem,
    /// At the next `State:`, at `--END--` and at the end of the input.
    StateBlock,
    /// At the next `]`.
    Bracket,
    /// At the first token that is no integer.
    Integers,
    /// At the first token that is no quoted string.
    Strings,
    /// At the first token that is no identifier, integer, `t` or `f`.
    ExtraInfo,
}

/// Whether a token of this category is a header keyword or `--BODY--`.
pub open spec fn is_header_kind(kind: TokenType) -> bool {
    match kind {
        TokenType::TokenHoa
        | TokenType::TokenState
        | TokenType::TokenStates
        | TokenType::TokenStart
        | TokenType::TokenAp
        | TokenType::TokenAlias
        | TokenType::TokenAcceptance
        | TokenType::TokenAccname
        | TokenType::TokenTool
        | TokenType::TokenName
        | TokenType::TokenProperties
        | TokenType::TokenHeaderName
        | TokenType::TokenBody => true,
        _ => false,
    }
}

/// Whether a token of this category is an item of extra information behind
/// the name of an acceptance class.
pub open spec fn is_info_kind(kind: TokenType) -> bool {
    kind == TokenType::TokenIdent || kind == TokenType::TokenInt || kind == TokenType::TokenTrue
        || kind == TokenType::TokenFalse
}

/// Whether a token of this category carries a text.
pub open spec fn is_text_kind(kind: TokenType) -> bool {
    kind == TokenType::TokenIdent || kind == TokenType::TokenString || kind
        == TokenType::TokenHeaderName || kind == TokenType::TokenAliasName
}

impl Stop {
    /// Whether a run of tokens ends before a token of the given category.
    pub open spec fn at(self, kind: TokenType) -> bool {
        match self {
            Stop::HeaderItem => is_header_kind(kind) || kind == TokenType::TokenEof,
            Stop::StateBlock => kind == TokenType::TokenState || kind == TokenType::TokenEnd
                || kind == TokenType::TokenEof,
            Stop::Bracket => kind == TokenType::TokenRbracket,
            Stop::Integers => kind != TokenType::TokenInt,
            Stop::Strings => kind != TokenType::TokenString,
            Stop::ExtraInfo => !is_info_kind(kind),
        }
    }
}

/// The first position at or behind `pos` at which the run of tokens ends, or
/// the number of tokens where it goes on to the last.
pub open spec fn run_end(ts: Seq<Lexeme>, pos: int, stop: Stop) -> int
    decreases ts.len() - pos,
{
    if 0 <= pos < ts.len() && !stop.at(ts[pos].kind) {
        run_end(ts, pos + 1, stop)
    } else {
        pos
    }
}

/// The numbers of the tokens from `from` up to `to`.
pub open spec fn numbers_between(ts: Seq<Lexeme>, from: int, to: int) -> Seq<usize> {
    Seq::new((to - from) as nat, |i: int| ts[from + i].number())
}

/// The texts of the tokens from `from` up to `to`.
pub open spec fn names_between(ts: Seq<Lexeme>, from: int, to: int) -> Seq<Seq<char>> {
    Seq::new((to - from) as nat, |i: int| ts[from + i].name())
}

/// The texts of those tokens that carry one.
pub open spec fn texts_of(ts: Seq<Lexeme>) -> Seq<Seq<char>> {
    ts.filter(|t: Lexeme| is_text_kind(t.kind)).map_values(|t: Lexeme| t.name())
}

/// Some integer, as the pattern of what is required.
pub open spec fn any_integer() -> Lexeme {
    Lexeme::with_int(TokenType::TokenInt, 0)
}

/// Some identifier, as the pattern of what is required.
pub open spec fn any_identifier() -> Lexeme {
    Lexeme::with_text(TokenType::TokenIdent, Seq::empty())
}

/// Some quoted string, as the pattern of what is required.
pub open spec fn any_string() -> Lexeme {
    Lexeme::with_text(TokenType::TokenString, Seq::empty())
}

/// Some alias name, as the pattern of what is required.
pub open spec fn any_alias_name() -> Lexeme {
    Lexeme::with_text(TokenType::TokenAliasName, Seq::empty())
}

/// The error for a required token that does not stand at `pos`: it is missing
/// where the input ends there, and mismatching where another token stands there.
pub open spec fn expect_error(ts: Seq<Lexeme>, pos: int, expected: Lexeme, context: Seq<char>)
    -> ParserErrorView {
    if !(0 <= pos < ts.len()) || ts[pos].kind == TokenType::TokenEof {
        ParserErrorView::MissingToken { expected: expected.rendered(), context }
    } else {
        ParserErrorView::MismatchingToken {
            expected: expected.rendered(),
            actual: ts[pos].rendered(),
            context,
        }
    }
}

/// A part of a parse: the calls it makes, and the position it reaches or the
/// error it ends with.
pub struct Step {
    pub calls: Seq<ConsumerCall>,
    pub end: Result<int, ParserErrorView>,
}

impl Step {
    /// A step that makes no call and ends with an error.
    pub open spec fn fails(error: ParserErrorView) -> Step {
        Step { calls: Seq::empty(), end: Err(error) }
    }

    /// A step that makes no call and reaches `next`.
    pub open spec fn silent(next: int) -> Step {
        Step { calls: Seq::empty(), end: Ok(next) }
    }

    /// A step that makes one call and reaches `next`.
    pub open spec fn one(call: ConsumerCall, next: int) -> Step {
        Step { calls: seq![call], end: Ok(next) }
    }

    /// This step and then another one.
    pub open spec fn followed_by(self, rest: Step) -> Step {
        Step { calls: self.calls + rest.calls, end: rest.end }
    }
}

/// The start of the header: `HOA:` and the version.
pub open spec fn preamble(ts: Seq<Lexeme>) -> Step {
    if !expression_parser::holds(ts, 0, TokenType::TokenHoa) {
        Step::fails(
            expect_error(ts, 0, Lexeme::plain(TokenType::TokenHoa), "HOA header extraction"@),
        )
    } else if !expression_parser::holds(ts, 1, TokenType::TokenIdent) {
        Step::fails(expect_error(ts, 1, any_identifier(), "HOA version"@))
    } else {
        Step::one(ConsumerCall::NotifyHeaderStart { version: ts[1].name() }, 2)
    }
}

/// `States:` and one integer.
pub open spec fn states_item(ts: Seq<Lexeme>, pos: int) -> Step {
    if !expression_parser::holds(ts, pos + 1, TokenType::TokenInt) {
        Step::fails(expect_error(ts, pos + 1, any_integer(), "state number extraction (int)"@))
    } else {
        Step::one(ConsumerCall::SetNumberOfStates { count: ts[pos + 1].number() }, pos + 2)
    }
}

/// `Start:` and one integer or more.
pub open spec fn start_item(ts: Seq<Lexeme>, pos: int) -> Step {
    if !expression_parser::holds(ts, pos + 1, TokenType::TokenInt) {
        Step::fails(expect_error(ts, pos + 1, any_integer(), "first initial state"@))
    } else {
        let end = run_end(ts, pos + 1, Stop::Integers);
        Step::one(ConsumerCall::AddStartStates { states: numbers_between(ts, pos + 1, end) }, end)
    }
}

/// `AP:`, the number of atomic propositions, which is not 0, and as many
/// quoted strings.
pub open spec fn ap_item(ts: Seq<Lexeme>, pos: int) -> Step {
    if !expression_parser::holds(ts, pos + 1, TokenType::TokenInt) {
        Step::fails(expect_error(ts, pos + 1, any_integer(), "num_aps"@))
    } else if ts[pos + 1].number() < 1 {
        Step::fails(ParserErrorView::ZeroAtomicPropositions)
    } else {
        let count = ts[pos + 1].number();
        let end = run_end(ts, pos + 2, Stop::Strings);
        if end - (pos + 2) >= count {
            Step::one(
                ConsumerCall::SetAps { names: names_between(ts, pos + 2, pos + 2 + count) },
                pos + 2 + count,
            )
        } else {
            Step::fails(expect_error(ts, end, any_string(), "ap extraction"@))
        }
    }
}

/// `Alias:`, an alias name, and the expression it stands for.
pub open spec fn alias_item(ts: Seq<Lexeme>, pos: int) -> Step {
    if !expression_parser::holds(ts, pos + 1, TokenType::TokenAliasName) {
        Step::fails(expect_error(ts, pos + 1, any_alias_name(), "alias_name"@))
    } else {
        let end = run_end(ts, pos + 2, Stop::HeaderItem);
        match expression_parser::alias_expression(ts.subrange(pos + 2, end)) {
            Err(e) => Step::fails(e),
            Ok(expr) => Step::one(ConsumerCall::AddAlias { name: ts[pos + 1].name(), expr }, end),
        }
    }
}

/// `Acceptance:`, the number of acceptance sets, and the condition.
pub open spec fn acceptance_item(ts: Seq<Lexeme>, pos: int) -> Step {
    if !expression_parser::holds(ts, pos + 1, TokenType::TokenInt) {
        Step::fails(expect_error(ts, pos + 1, any_integer(), "number of acceptance sets"@))
    } else {
        let end = run_end(ts, pos + 2, Stop::HeaderItem);
        match expression_parser::acceptance_expression(
            ts.subrange(pos + 2, end),
        ) {
            Err(e) => Step::fails(e),
            Ok(expr) => Step::one(
                ConsumerCall::SetAcceptanceCondition { sets: ts[pos + 1].number(), expr },
                end,
            ),
        }
    }
}

/// The item of extra information that a token is.
pub open spec fn info_of(token: Lexeme) -> AccnameInfoView {
    match token.kind {
        TokenType::TokenIdent => AccnameInfoView::StringValue(token.name()),
        TokenType::TokenInt => AccnameInfoView::IntegerValue(token.number()),
        TokenType::TokenTrue => AccnameInfoView::BooleanValue(true),
        _ => AccnameInfoView::BooleanValue(false),
    }
}

/// The items of extra information that the tokens are; an error at the first
/// token that is none.
pub open spec fn extra_info(ts: Seq<Lexeme>) -> Result<Seq<AccnameInfoView>, ParserErrorView> {
    let bad = run_end(ts, 0, Stop::ExtraInfo);
    if 0 <= bad < ts.len() {
        Err(
            ParserErrorView::MismatchingToken {
                expected: "identifier, integer or boolean"@,
                actual: ts[bad].rendered(),
                context: "acceptance name extraction"@,
            },
        )
    } else {
        Ok(Seq::new(ts.len(), |i: int| info_of(ts[i])))
    }
}

/// `acc-name:`, the name of the acceptance class, and its parameters.
pub open spec fn accname_item(ts: Seq<Lexeme>, pos: int) -> Step {
    if !expression_parser::holds(ts, pos + 1, TokenType::TokenIdent) {
        Step::fails(expect_error(ts, pos + 1, any_identifier(), "acceptance name extraction"@))
    } else {
        let end = run_end(ts, pos + 2, Stop::HeaderItem);
        match extra_info(ts.subrange(pos + 2, end)) {
            Err(e) => Step::fails(e),
            Ok(info) => Step::one(
                ConsumerCall::ProvideAcceptanceName { name: ts[pos + 1].name(), extra_info: info },
                end,
            ),
        }
    }
}

/// `name:` and one quoted string.
pub open spec fn name_item(ts: Seq<Lexeme>, pos: int) -> Step {
    if !expression_parser::holds(ts, pos + 1, TokenType::TokenString) {
        Step::fails(expect_error(ts, pos + 1, any_string(), "token name info"@))
    } else {
        Step::one(ConsumerCall::SetName { name: ts[pos + 1].name() }, pos + 2)
    }
}

/// Whether a header item starts with a token of this category.
pub open spec fn starts_header_item(kind: TokenType) -> bool {
    match kind {
        TokenType::TokenStates
        | TokenType::TokenStart
        | TokenType::TokenAp
        | TokenType::TokenAlias
        | TokenType::TokenAcceptance
        | TokenType::TokenAccname
        | TokenType::TokenTool
        | TokenType::TokenName
        | TokenType::TokenProperties
        | TokenType::TokenHeaderName => true,
        _ => false,
    }
}

/// The header item whose keyword stands at `pos`.  `tool:` and `properties:`
/// take the texts up to the next header item; a header that is not known
/// takes the tokens up to there and tells the consumer nothing.
pub open spec fn header_item(ts: Seq<Lexeme>, pos: int) -> Step {
    match ts[pos].kind {
        TokenType::TokenStates => states_item(ts, pos),
        TokenType::TokenStart => start_item(ts, pos),
        TokenType::TokenAp => ap_item(ts, pos),
        TokenType::TokenAlias => alias_item(ts, pos),
        TokenType::TokenAcceptance => acceptance_item(ts, pos),
        TokenType::TokenAccname => accname_item(ts, pos),
        TokenType::TokenName => name_item(ts, pos),
        TokenType::TokenTool => {
            let end = run_end(ts, pos + 1, Stop::HeaderItem);
            Step::one(ConsumerCall::SetTool { info: texts_of(ts.subrange(pos + 1, end)) }, end)
        },
        TokenType::TokenProperties => {
            let end = run_end(ts, pos + 1, Stop::HeaderItem);
            Step::one(
                ConsumerCall::AddProperties { props: texts_of(ts.subrange(pos + 1, end)) },
                end,
            )
        },
        _ => Step::silent(run_end(ts, pos + 1, Stop::HeaderItem)),
    }
}

/// The header items from `pos` on, up to and with `--BODY--`.
/// (A header item never ends where it starts; the comparison of `pos` and
/// `next` says so to the termination check.)
pub open spec fn header_from(ts: Seq<Lexeme>, pos: int) -> Step
    decreases ts.len() - pos,
{
    if expression_parser::holds(ts, pos, TokenType::TokenBody) {
        Step::silent(pos + 1)
    } else if 0 <= pos < ts.len() && starts_header_item(ts[pos].kind) {
        let item = header_item(ts, pos);
        match item.end {
            Err(e) => item,
            Ok(next) => if pos < next <= ts.len() {
                item.followed_by(header_from(ts, next))
            } else {
                item
            },
        }
    } else {
        Step::fails(expect_error(ts, pos, Lexeme::plain(TokenType::TokenBody), "body token"@))
    }
}

/// The acceptance signature at `pos`, if one stands there: `{`, integers, and
/// `}`.  A signature that the tokens end in needs no `}`.
pub open spec fn acc_sig(ts: Seq<Lexeme>, pos: int) -> Result<
    (Option<Seq<usize>>, int),
    ParserErrorView,
> {
    if !expression_parser::holds(ts, pos, TokenType::TokenLcurly) {
        Ok((None, pos))
    } else {
        let end = run_end(ts, pos + 1, Stop::Integers);
        let sets = numbers_between(ts, pos + 1, end);
        if !(end < ts.len()) {
            Ok((Some(sets), end))
        } else if ts[end].kind == TokenType::TokenRcurly {
            Ok((Some(sets), end + 1))
        } else {
            Err(
                ParserErrorView::MismatchingToken {
                    expected: Lexeme::plain(TokenType::TokenRcurly).rendered(),
                    actual: ts[end].rendered(),
                    context: "acceptance signature"@,
                },
            )
        }
    }
}

/// The label at `pos`, if one stands there: `[`, an alias expression, and
/// `]`.  A label that the tokens end in needs no `]`.
pub open spec fn label_at(ts: Seq<Lexeme>, pos: int) -> Result<
    (Option<ExpressionView>, int),
    ParserErrorView,
> {
    if !expression_parser::holds(ts, pos, TokenType::TokenLbracket) {
        Ok((None, pos))
    } else {
        let close = run_end(ts, pos + 1, Stop::Bracket);
        match expression_parser::alias_expression(ts.subrange(pos + 1, close)) {
            Err(e) => Err(e),
            Ok(expr) => Ok(
                (
                    Some(expr),
                    if close < ts.len() {
                        close + 1
                    } else {
                        close
                    },
                ),
            ),
        }
    }
}

/// The states that an edge leads to, joined by `&`: an integer, and after
/// `&` another conjunction.
pub open spec fn state_conjunction(ts: Seq<Lexeme>, pos: int) -> Result<
    (Seq<usize>, int),
    ParserErrorView,
>
    decreases ts.len() - pos,
{
    if !expression_parser::holds(ts, pos, TokenType::TokenInt) {
        Err(expect_error(ts, pos, any_integer(), "state conjunction"@))
    } else if expression_parser::holds(ts, pos + 1, TokenType::TokenAnd) {
        match state_conjunction(ts, pos + 2) {
            Err(e) => Err(e),
            Ok((rest, end)) => Ok((seq![ts[pos].number()] + rest, end)),
        }
    } else {
        Ok((seq![ts[pos].number()], pos + 1))
    }
}

/// The edge of state `state` that starts at `pos`: a label of its own if it
/// has one, the states it leads to, and an acceptance signature if it has
/// one.  Where it has no label of its own it has that of its state; an edge
/// with neither is an implicit one.
pub open spec fn edge_at(
    ts: Seq<Lexeme>,
    pos: int,
    state: usize,
    inherited: Option<ExpressionView>,
) -> Step {
    match label_at(ts, pos) {
        Err(e) => Step::fails(e),
        Ok((own, behind_label)) => match state_conjunction(ts, behind_label) {
            Err(e) => Step::fails(e),
            Ok((targets, behind_targets)) => match acc_sig(ts, behind_targets) {
                Err(e) => Step::fails(e),
                Ok((sig, end)) => {
                    let label = if own is Some {
                        own
                    } else {
                        inherited
                    };
                    match label {
                        Some(l) => Step::one(
                            ConsumerCall::AddEdgeWithLabel {
                                state,
                                label: l,
                                targets,
                                acc_sig: sig,
                            },
                            end,
                        ),
                        None => Step::one(
                            ConsumerCall::AddEdgeImplicit { state, targets, acc_sig: sig },
                            end,
                        ),
                    }
                },
            },
        },
    }
}

/// The edges of state `state` from `pos` on, up to the last token.
/// (An edge never ends where it starts; the comparison of `pos` and `next`
/// says so to the termination check.)
pub open spec fn edges_from(
    ts: Seq<Lexeme>,
    pos: int,
    state: usize,
    inherited: Option<ExpressionView>,
) -> Step
    decreases ts.len() - pos,
{
    if !(0 <= pos < ts.len()) {
        Step::silent(pos)
    } else {
        let edge = edge_at(ts, pos, state, inherited);
        match edge.end {
            Err(e) => edge,
            Ok(next) => if pos < next <= ts.len() {
                edge.followed_by(edges_from(ts, next, state, inherited))
            } else {
                edge
            },
        }
    }
}

/// The error for a state block that does not go on with the number of the state.
pub open spec fn state_number_error(ts: Seq<Lexeme>, pos: int) -> ParserErrorView {
    if 0 <= pos < ts.len() {
        ParserErrorView::MismatchingToken {
            expected: "Integer (state identifier)"@,
            actual: ts[pos].rendered(),
            context: "state extraction"@,
        }
    } else {
        ParserErrorView::MissingToken {
            expected: "Integer (state identifier)"@,
            context: "state extraction"@,
        }
    }
}

/// The block of one state, `ts` being the tokens behind its `State:`: a
/// label if it has one, its number, a name if it has one, an acceptance
/// signature if it has one, and its edges.
pub open spec fn state_block(ts: Seq<Lexeme>) -> Step {
    match label_at(ts, 0) {
        Err(e) => Step::fails(e),
        Ok((label, at)) => if !expression_parser::holds(ts, at, TokenType::TokenInt) {
            Step::fails(state_number_error(ts, at))
        } else {
            let number = ts[at].number();
            let named = expression_parser::holds(ts, at + 1, TokenType::TokenString);
            let name = if named {
                Some(ts[at + 1].name())
            } else {
                None
            };
            let behind_name = if named {
                at + 2
            } else {
                at + 1
            };
            match acc_sig(ts, behind_name) {
                Err(e) => Step::fails(e),
                Ok((sig, behind_sig)) => {
                    let declared = Step::one(
                        ConsumerCall::AddState { number, name, label, acc_sig: sig },
                        behind_sig,
                    );
                    let edges = edges_from(ts, behind_sig, number, label);
                    match edges.end {
                        Err(e) => declared.followed_by(edges),
                        Ok(_) => declared.followed_by(edges).followed_by(
                            Step::one(
                                ConsumerCall::NotifyEndOfState { state: number },
                                ts.len() as int,
                            ),
                        ),
                    }
                },
            }
        },
    }
}

/// The state blocks from `pos` on: each `State:` with the tokens up to the
/// next `State:`, `--END--` or the end of the input.
pub open spec fn states_from(ts: Seq<Lexeme>, pos: int) -> Step
    decreases ts.len() - pos,
{
    if !expression_parser::holds(ts, pos, TokenType::TokenState) {
        Step::silent(pos)
    } else {
        let end = run_end(ts, pos + 1, Stop::StateBlock);
        let block = state_block(ts.subrange(pos + 1, end));
        match block.end {
            Err(e) => block,
            Ok(_) => if pos < end <= ts.len() {
                (Step { calls: block.calls, end: Ok(end) }).followed_by(states_from(ts, end))
            } else {
                Step { calls: block.calls, end: Ok(end) }
            },
        }
    }
}

/// The end of the automaton: `--END--` and then the end of the input.
pub open spec fn closing(ts: Seq<Lexeme>, pos: int) -> Result<(), ParserErrorView> {
    if !expression_parser::holds(ts, pos, TokenType::TokenEnd) {
        Err(expect_error(ts, pos, Lexeme::plain(TokenType::TokenEnd), "end of automaton"@))
    } else if !expression_parser::holds(ts, pos + 1, TokenType::TokenEof) {
        Err(expect_error(ts, pos + 1, Lexeme::plain(TokenType::TokenEof), "end of file"@))
    } else {
        Ok(())
    }
}

/// What a parse comes to: the calls on the consumer, in their order, and
/// whether the input was accepted.
pub struct Outcome {
    pub calls: Seq<ConsumerCall>,
    pub result: Result<(), ParserErrorView>,
}

/// What the tokens of an input come to: the start of the header, the header
/// items up to `--BODY--`, the state blocks, and the end.  The calls made
/// before an error stay made.
pub open spec fn automaton(ts: Seq<Lexeme>) -> Outcome {
    let start = preamble(ts);
    match start.end {
        Err(e) => Outcome { calls: start.calls, result: Err(e) },
        Ok(behind_start) => {
            let header = start.followed_by(header_from(ts, behind_start));
            match header.end {
                Err(e) => Outcome { calls: header.calls, result: Err(e) },
                Ok(behind_header) => {
                    let body = header.followed_by(states_from(ts, behind_header));
                    match body.end {
                        Err(e) => Outcome { calls: body.calls, result: Err(e) },
                        Ok(behind_body) => Outcome {
                            calls: body.calls,
                            result: closing(ts, behind_body),
                        },
                    }
                },
            }
        },
    }
}

/// A run ends at or behind its start and within the tokens; no token of the
/// run stops it, and the token at its end does, if there is one.
pub proof fn lemma_run_end(ts: Seq<Lexeme>, pos: int, stop: Stop)
    requires
        0 <= pos <= ts.len(),
    ensures
        pos <= run_end(ts, pos, stop) <= ts.len(),
        forall|i: int| pos <= i < run_end(ts, pos, stop) ==> !stop.at(#[trigger] ts[i].kind),
        run_end(ts, pos, stop) < ts.len() ==> stop.at(ts[run_end(ts, pos, stop)].kind),
    decreases ts.len() - pos,
{
    if pos < ts.len() && !stop.at(ts[pos].kind) {
        lemma_run_end(ts, pos + 1, stop);
    }
}

/// A run ends at `end` where no token before `end` stops it and the token at
/// `end` does, if there is one.
pub proof fn lemma_run_end_is(ts: Seq<Lexeme>, pos: int, stop: Stop, end: int)
    requires
        0 <= pos <= end <= ts.len(),
        forall|i: int| pos <= i < end ==> !stop.at(#[trigger] ts[i].kind),
        end < ts.len() ==> stop.at(ts[end].kind),
    ensures
        run_end(ts, pos, stop) == end,
    decreases end - pos,
{
    if pos < end {
        lemma_run_end_is(ts, pos + 1, stop, end);
    }
}

/// A conjunction of states ends behind its start and within the tokens.
pub proof fn lemma_state_conjunction(ts: Seq<Lexeme>, pos: int)
    requires
        0 <= pos <= ts.len(),
    ensures
        state_conjunction(ts, pos) matches Ok((targets, end)) ==> pos < end <= ts.len()
            && targets.len() >= 1,
    decreases ts.len() - pos,
{
    if expression_parser::holds(ts, pos, TokenType::TokenInt) && expression_parser::holds(
        ts,
        pos + 1,
        TokenType::TokenAnd,
    ) {
        lemma_state_conjunction(ts, pos + 2);
    }
}

/// An acceptance signature ends at or behind its start and within the tokens.
pub proof fn lemma_acc_sig(ts: Seq<Lexeme>, pos: int)
    requires
        0 <= pos <= ts.len(),
    ensures
        acc_sig(ts, pos) matches Ok((_, end)) ==> pos <= end <= ts.len(),
{
    if pos < ts.len() {
        lemma_run_end(ts, pos + 1, Stop::Integers);
    }
}

/// A label ends at or behind its start and within the tokens.
pub proof fn lemma_label_at(ts: Seq<Lexeme>, pos: int)
    requires
        0 <= pos <= ts.len(),
    ensures
        label_at(ts, pos) matches Ok((_, end)) ==> pos <= end <= ts.len(),
{
    if pos < ts.len() {
        lemma_run_end(ts, pos + 1, Stop::Bracket);
    }
}

/// An edge ends behind its start and within the tokens.
pub proof fn lemma_edge_at(
    ts: Seq<Lexeme>,
    pos: int,
    state: usize,
    inherited: Option<ExpressionView>,
)
    requires
        0 <= pos <= ts.len(),
    ensures
        edge_at(ts, pos, state, inherited).end matches Ok(end) ==> pos < end <= ts.len(),
{
    lemma_label_at(ts, pos);
    match label_at(ts, pos) {
        Ok((_, behind_label)) => {
            lemma_state_conjunction(ts, behind_label);
            match state_conjunction(ts, behind_label) {
                Ok((_, behind_targets)) => {
                    lemma_acc_sig(ts, behind_targets);
                },
                Err(e) => {},
            }
        },
        Err(e) => {},
    }
}

/// A header item ends behind its keyword and within the tokens.
pub proof fn lemma_header_item(ts: Seq<Lexeme>, pos: int)
    requires
        0 <= pos < ts.len(),
    ensures
        header_item(ts, pos).end matches Ok(end) ==> pos < end <= ts.len(),
{
    lemma_run_end(ts, pos + 1, Stop::HeaderItem);
    lemma_run_end(ts, pos + 1, Stop::Integers);
    if pos + 2 <= ts.len() {
        lemma_run_end(ts, pos + 2, Stop::HeaderItem);
        lemma_run_end(ts, pos + 2, Stop::Strings);
    }
}

} // verus!
