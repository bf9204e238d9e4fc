use hoars::lexer::token::Token;
use hoars::lexer::token::Token::{
    TokenAliasName, TokenAnd, TokenFalse, TokenIdent, TokenInt, TokenLparenth, TokenNot, TokenOr,
    TokenRparenth, TokenTrue,
};
use hoars::parser::expression::AcceptanceIdent::{Fin, FinNeg, Inf, InfNeg};
use hoars::parser::expression::{AcceptanceCondition, BooleanAtom, BooleanExpression};
use hoars::parser::expression_parser::{
    is_alias_expression_token, parse_acceptance_expression, parse_alias_expression,
    parse_expr_acceptance, parse_expr_alias,
};
use hoars::parser::ParserError;

fn atom(a: BooleanAtom) -> BooleanExpression {
    BooleanExpression::from(a)
}

fn unexpected_end(message: &str) -> ParserError {
    ParserError::UnexpectedEnd {
        message: message.to_string(),
    }
}

#[test]
fn parse_acceptance() {
    let fintoken = TokenIdent("Fin".to_string());
    let inftoken = TokenIdent("Inf".to_string());
    let input = vec![
        &fintoken,
        &TokenLparenth,
        &TokenInt(0),
        &TokenRparenth,
        &TokenAnd,
        &inftoken,
        &TokenLparenth,
        &TokenNot,
        &TokenInt(0),
        &TokenRparenth,
    ];

    assert_eq!(
        parse_acceptance_expression(&input).expect("could not parse input"),
        AcceptanceCondition::Atom(Fin(0)).and(AcceptanceCondition::Atom(InfNeg(0)))
    );
}

#[test]
fn parse_alias_not_binding_test() {
    let input = vec![&TokenNot, &TokenTrue, &TokenOr, &TokenFalse];
    assert_eq!(
        parse_alias_expression(&input).expect("could not parse input"),
        atom(BooleanAtom::btrue())
            .not()
            .or(atom(BooleanAtom::bfalse()))
    )
}

#[test]
fn parse_alias_binding_test() {
    let input = vec![&TokenTrue, &TokenOr, &TokenFalse, &TokenAnd, &TokenFalse];
    assert_eq!(
        parse_alias_expression(&input).expect("could not parse input"),
        atom(BooleanAtom::btrue())
            .or(atom(BooleanAtom::bfalse()).and(atom(BooleanAtom::bfalse())))
    )
}

#[test]
fn parse_alias_complete_test_with_params() {
    let aliastoken = TokenAliasName("dkf".into());
    let input = vec![
        &aliastoken,
        &TokenOr,
        &TokenNot,
        &TokenLparenth,
        &TokenInt(238),
        &TokenAnd,
        &TokenInt(1),
        &TokenRparenth,
    ];
    let (expr, next) = parse_expr_alias(&input, 0).ok().unwrap();
    println!("{}", expr.to_string());
    assert_eq!(expr.to_string(), "(@dkf | !(238 & 1))");
    assert_eq!(next, 8);
}

#[test]
fn parse_alias_complete_test() {
    let aliastoken = TokenAliasName("dkf".into());
    let input = vec![
        &aliastoken,
        &TokenOr,
        &TokenNot,
        &TokenInt(238),
        &TokenAnd,
        &TokenInt(1),
    ];
    let (expr, next) = parse_expr_alias(&input, 0).ok().unwrap();
    println!("{}", expr.to_string());
    assert_eq!(expr.to_string(), "(@dkf | (!238 & 1))");
    assert_eq!(next, 6);
}

#[test]
fn parse_alias_complete_test_should_fail() {
    let aliastoken = TokenAliasName("dkf".into());
    let input = vec![
        &aliastoken,
        &TokenOr,
        &TokenNot,
        &TokenInt(238),
        &TokenAnd,
        &TokenInt(1),
    ];
    println!("{}", parse_expr_alias(&input, 0).ok().unwrap().0.to_string());
}

#[test]
fn and_takes_a_following_or_as_its_right_operand() {
    let a = TokenAliasName("a".to_string());
    let b = TokenAliasName("b".to_string());
    let c = TokenAliasName("c".to_string());
    let input = vec![&a, &TokenAnd, &b, &TokenOr, &c];
    assert_eq!(
        parse_alias_expression(&input).unwrap(),
        atom(BooleanAtom::balias("a"))
            .and(atom(BooleanAtom::balias("b")).or(atom(BooleanAtom::balias("c"))))
    );
}

#[test]
fn parentheses_reset_precedence() {
    let input = vec![
        &TokenLparenth,
        &TokenInt(0),
        &TokenAnd,
        &TokenInt(1),
        &TokenRparenth,
        &TokenOr,
        &TokenInt(2),
    ];
    assert_eq!(
        parse_alias_expression(&input).unwrap(),
        atom(BooleanAtom::bint(0))
            .and(atom(BooleanAtom::bint(1)))
            .or(atom(BooleanAtom::bint(2)))
    );
}

#[test]
fn undeclared_alias_is_accepted() {
    let name = TokenAliasName("never_declared".to_string());
    let input = vec![&name];
    assert_eq!(
        parse_alias_expression(&input).unwrap(),
        atom(BooleanAtom::balias("never_declared"))
    );
}

#[test]
fn alias_expression_errors() {
    let empty: Vec<&Token> = vec![];
    assert_eq!(
        parse_alias_expression(&empty),
        Err(unexpected_end(
            "Unexpected end of input, expected parenteses or identifier"
        ))
    );
    assert_eq!(
        parse_alias_expression(&vec![&TokenAnd]),
        Err(unexpected_end("expected atom, not what we got"))
    );
    assert_eq!(
        parse_alias_expression(&vec![&TokenLparenth, &TokenInt(1)]),
        Err(unexpected_end("Expected closing paren"))
    );
    assert_eq!(
        parse_alias_expression(&vec![&TokenLparenth, &TokenInt(1), &TokenInt(2)]),
        Err(unexpected_end("expected closing paren"))
    );
    assert_eq!(
        parse_alias_expression(&vec![&TokenInt(1), &TokenOr]),
        Err(unexpected_end(
            "Unexpected end of input, expected parenteses or identifier"
        ))
    );
}

#[test]
fn what_follows_an_expression_is_ignored() {
    let input = vec![&TokenInt(1), &TokenInt(2)];
    assert_eq!(
        parse_alias_expression(&input).unwrap(),
        atom(BooleanAtom::bint(1))
    );
    let (_, next) = parse_expr_alias(&input, 0).unwrap();
    assert_eq!(next, 1);
}

#[test]
fn negated_acceptance_atom_is_negation_of_plain_atom() {
    for name in ["Fin", "Inf"] {
        let ident = TokenIdent(name.to_string());
        let plain = vec![&ident, &TokenLparenth, &TokenInt(5), &TokenRparenth];
        let negated = vec![
            &ident,
            &TokenLparenth,
            &TokenNot,
            &TokenInt(5),
            &TokenRparenth,
        ];
        let plain = match parse_acceptance_expression(&plain).unwrap() {
            AcceptanceCondition::Atom(a) => a,
            other => panic!("not an atom: {:?}", other),
        };
        assert_eq!(
            parse_acceptance_expression(&negated).unwrap(),
            AcceptanceCondition::Atom(plain.not())
        );
    }
    let fin = TokenIdent("Fin".to_string());
    assert_eq!(
        parse_expr_acceptance(
            &vec![&fin, &TokenLparenth, &TokenNot, &TokenInt(3), &TokenRparenth],
            0
        ),
        Ok((AcceptanceCondition::Atom(FinNeg(3)), 5))
    );
    let inf = TokenIdent("Inf".to_string());
    assert_eq!(
        parse_expr_acceptance(&vec![&inf, &TokenLparenth, &TokenInt(3), &TokenRparenth], 0),
        Ok((AcceptanceCondition::Atom(Inf(3)), 4))
    );
}

#[test]
fn acceptance_expression_shapes() {
    let fin = TokenIdent("Fin".to_string());
    let inf = TokenIdent("Inf".to_string());
    // (Fin(0) & Inf(1)) | t
    let input = vec![
        &TokenLparenth,
        &fin,
        &TokenLparenth,
        &TokenInt(0),
        &TokenRparenth,
        &TokenAnd,
        &inf,
        &TokenLparenth,
        &TokenInt(1),
        &TokenRparenth,
        &TokenRparenth,
        &TokenOr,
        &TokenTrue,
    ];
    assert_eq!(
        parse_acceptance_expression(&input).unwrap(),
        AcceptanceCondition::Atom(Fin(0))
            .and(AcceptanceCondition::Atom(Inf(1)))
            .or(AcceptanceCondition::BooleanValue(true))
    );
    assert_eq!(
        parse_acceptance_expression(&vec![&TokenFalse]).unwrap(),
        AcceptanceCondition::BooleanValue(false)
    );
}

#[test]
fn acceptance_expression_errors() {
    let fin = TokenIdent("Fin".to_string());
    let other = TokenIdent("Foo".to_string());
    let empty: Vec<&Token> = vec![];
    assert_eq!(
        parse_acceptance_expression(&empty),
        Err(unexpected_end(
            "Unexpected end of input, expected Fin, Inf, parentheses or boolean"
        ))
    );
    assert_eq!(
        parse_acceptance_expression(&vec![&other, &TokenLparenth, &TokenInt(0), &TokenRparenth]),
        Err(ParserError::UnknownToken {
            message: "Foo".to_string()
        })
    );
    assert_eq!(
        parse_acceptance_expression(&vec![&fin]),
        Err(unexpected_end("expected acceptance set"))
    );
    assert_eq!(
        parse_acceptance_expression(&vec![&fin, &TokenInt(0)]),
        Err(ParserError::MismatchingToken {
            expected: "opening paren".to_string(),
            actual: "0".to_string(),
            context: "acceptance condition parsing".to_string(),
        })
    );
    assert_eq!(
        parse_acceptance_expression(&vec![&fin, &TokenLparenth]),
        Err(unexpected_end(
            "Fin or Inf need to be followed by ! INTEGER or just INTEGER"
        ))
    );
    assert_eq!(
        parse_acceptance_expression(&vec![&fin, &TokenLparenth, &TokenNot, &TokenRparenth]),
        Err(unexpected_end(
            "Negation in Fin or Inf needs to be followed by an integer"
        ))
    );
    assert_eq!(
        parse_acceptance_expression(&vec![&fin, &TokenLparenth, &TokenRparenth]),
        Err(unexpected_end(
            "Inf or Fin need to be followed by Negation symbol or INTEGER"
        ))
    );
    assert_eq!(
        parse_acceptance_expression(&vec![&fin, &TokenLparenth, &TokenInt(0)]),
        Err(unexpected_end(
            "expected closing paren after the acceptance set"
        ))
    );
    assert_eq!(
        parse_acceptance_expression(&vec![&fin, &TokenLparenth, &TokenInt(0), &TokenAnd]),
        Err(ParserError::MismatchingToken {
            expected: "closing paren".to_string(),
            actual: "&".to_string(),
            context: "acceptance condition parsing".to_string(),
        })
    );
    assert_eq!(
        parse_acceptance_expression(&vec![&TokenLparenth, &TokenTrue]),
        Err(unexpected_end("Expected closing param"))
    );
    assert_eq!(
        parse_acceptance_expression(&vec![&TokenInt(0)]),
        Err(unexpected_end("Expected atom, not whatever we got"))
    );
}

#[test]
fn tokens_of_alias_expressions() {
    for token in [
        TokenNot,
        TokenAnd,
        TokenOr,
        TokenLparenth,
        TokenRparenth,
        TokenTrue,
        TokenFalse,
        TokenInt(3),
        TokenAliasName("a".to_string()),
    ] {
        assert!(is_alias_expression_token(&token));
    }
    for token in [
        TokenIdent("Fin".to_string()),
        Token::TokenString("s".to_string()),
        Token::TokenEof,
        Token::TokenLbracket,
        Token::TokenLcurly,
        Token::TokenHoa,
    ] {
        assert!(!is_alias_expression_token(&token));
    }
}
