//! Taking a run of tokens off a token sequence.

use vstd::prelude::*;
use itertools::Itertools;
use crate::lexer::token::{PositionedToken, Token};

verus! {

/// `Itertools::peeking_take_while` on the tokens from `from` on: it hands out
/// the tokens for which `accept` answers `true`, in their order, up to the
/// first one for which it answers `false`, which stays where it is, or up to
/// the last token.
#[verifier::external_body]
pub(crate) fn peeking_take_while<'a, F: Fn(&PositionedToken) -> bool>(
    tokens: &'a Vec<PositionedToken>,
    from: usize,
    accept: F,
) -> (taken: Vec<&'a Token>)
    requires
        from <= tokens.len(),
        forall|token: &PositionedToken| call_requires(accept, (token,)),
    ensures
        from + taken.len() <= tokens.len(),
        forall|i: int|
            0 <= i < taken.len() ==> *(#[trigger] taken[i]) == tokens[from + i].token
                && call_ensures(accept, (&tokens[from + i],), true),
        from + taken.len() < tokens.len() ==> call_ensures(
            accept,
            (&tokens[from + taken.len()],),
            false,
        ),
{
    let mut it = tokens[from..].iter();
    it.peeking_take_while(|token| accept(*token)).map(|token| &token.token).collect()
}

} // verus!
