use hoars::parser::expression::{
    AcceptanceCondition, AcceptanceIdent, BooleanAtom, BooleanExpression,
};

#[test]
fn alias_test() {
    let a: BooleanExpression = BooleanAtom::balias("asdf").into();
    let t: BooleanExpression = BooleanAtom::btrue().into();

    let be = a.not().or(t.not());
    println!("{}", be.to_string());
    assert_eq!(be.to_string(), "(!@asdf | !t)");
}

#[test]
fn expression_methods_construction_test() {
    let t: BooleanExpression = BooleanAtom::btrue().into();
    let f: BooleanExpression = BooleanAtom::bfalse().into();

    let be = t.not().and(f);
    println!("{}", be.to_string());
    assert_eq!(be.to_string(), "(!t & f)");
}

#[test]
fn expression_construction_test() {
    let be = BooleanExpression::Conjunction(
        Box::new(BooleanExpression::Atom(BooleanAtom::BooleanValue(true))),
        Box::new(BooleanExpression::Atom(BooleanAtom::BooleanValue(false))),
    );
    println!("{}", be.to_string());
    assert_eq!(be.to_string(), "(t & f)");
}

#[test]
fn atoms_are_rendered_bare() {
    assert_eq!(BooleanAtom::btrue().to_string(), "t");
    assert_eq!(BooleanAtom::bfalse().to_string(), "f");
    assert_eq!(BooleanAtom::bint(0).to_string(), "0");
    assert_eq!(BooleanAtom::bint(238).to_string(), "238");
    assert_eq!(BooleanAtom::bint(usize::MAX).to_string(), format!("{}", usize::MAX));
    assert_eq!(BooleanAtom::balias("a-b_c").to_string(), "@a-b_c");
}

#[test]
fn constructors_build_the_variants() {
    assert_eq!(BooleanAtom::btrue(), BooleanAtom::BooleanValue(true));
    assert_eq!(BooleanAtom::bfalse(), BooleanAtom::BooleanValue(false));
    assert_eq!(BooleanAtom::bint(7), BooleanAtom::IntegerValue(7));
    assert_eq!(BooleanAtom::balias("x"), BooleanAtom::AliasName("x".to_string()));
    let a = BooleanExpression::from(BooleanAtom::bint(1));
    let b = BooleanExpression::from(BooleanAtom::bint(2));
    assert_eq!(
        a.or(b),
        BooleanExpression::Disjunction(
            Box::new(BooleanExpression::Atom(BooleanAtom::IntegerValue(1))),
            Box::new(BooleanExpression::Atom(BooleanAtom::IntegerValue(2))),
        )
    );
    let c = BooleanExpression::from(BooleanAtom::bint(3));
    assert_eq!(
        c.not(),
        BooleanExpression::Negation(Box::new(BooleanExpression::Atom(
            BooleanAtom::IntegerValue(3)
        )))
    );
}

#[test]
fn acceptance_negation_flips_polarity() {
    assert_eq!(AcceptanceIdent::Fin(3).not(), AcceptanceIdent::FinNeg(3));
    assert_eq!(AcceptanceIdent::FinNeg(3).not(), AcceptanceIdent::Fin(3));
    assert_eq!(AcceptanceIdent::Inf(4).not(), AcceptanceIdent::InfNeg(4));
    assert_eq!(AcceptanceIdent::InfNeg(4).not(), AcceptanceIdent::Inf(4));
}

#[test]
fn acceptance_negation_is_involutive() {
    for atom in [
        AcceptanceIdent::Fin(0),
        AcceptanceIdent::FinNeg(1),
        AcceptanceIdent::Inf(2),
        AcceptanceIdent::InfNeg(usize::MAX),
    ] {
        assert_eq!(atom.not().not(), atom);
    }
}

#[test]
fn acceptance_conditions_are_rendered_in_parentheses() {
    assert_eq!(AcceptanceIdent::Fin(3).to_string(), "Fin(3)");
    assert_eq!(AcceptanceIdent::FinNeg(3).to_string(), "Fin(!3)");
    assert_eq!(AcceptanceIdent::Inf(10).to_string(), "Inf(10)");
    assert_eq!(AcceptanceIdent::InfNeg(0).to_string(), "Inf(!0)");
    let c = AcceptanceCondition::Atom(AcceptanceIdent::Fin(0))
        .and(AcceptanceCondition::Atom(AcceptanceIdent::Inf(1)))
        .or(AcceptanceCondition::BooleanValue(true));
    assert_eq!(c.to_string(), "((Fin(0) & Inf(1)) | t)");
    assert_eq!(AcceptanceCondition::BooleanValue(false).to_string(), "f");
}
