//! The two expression trees of the format: Boolean expressions over atomic
//! propositions and aliases, and acceptance conditions over `Fin` and `Inf`.

use vstd::prelude::*;
use vstd::std_specs::convert::FromSpecImpl;
use crate::text::{owned, push_decimal, push_text};

verus! {

/// A leaf of a Boolean expression.
#[derive(Debug, Clone, PartialEq)]
pub enum BooleanAtom {
    BooleanValue(bool),
    IntegerValue(usize),
    AliasName(String),
}

/// A Boolean expression over atoms.
#[derive(Debug, PartialEq)]
pub enum BooleanExpression {
    Atom(BooleanAtom),
    Negation(Box<BooleanExpression>),
    Conjunction(Box<BooleanExpression>, Box<BooleanExpression>),
    Disjunction(Box<BooleanExpression>, Box<BooleanExpression>),
}

/// A reference to an acceptance set: visited finitely or infinitely often, the
/// set itself or its complement.
#[derive(Debug, Clone, Copy, PartialEq, Eq, Structural)]
pub enum AcceptanceIdent {
    Fin(usize),
    FinNeg(usize),
    Inf(usize),
    InfNeg(usize),
}

/// An acceptance condition.  It has no negation node: a negation is part of the atom.
#[derive(Debug, PartialEq)]
pub enum AcceptanceCondition {
    Atom(AcceptanceIdent),
    Conjunction(Box<AcceptanceCondition>, Box<AcceptanceCondition>),
    Disjunction(Box<AcceptanceCondition>, Box<AcceptanceCondition>),
    BooleanValue(bool),
}

/// The mathematical value of a [`BooleanAtom`].
pub enum AtomView {
    BooleanValue(bool),
    IntegerValue(usize),
    AliasName(Seq<char>),
}

/// The mathematical value of a [`BooleanExpression`].
pub enum ExpressionView {
    Atom(AtomView),
    Negation(Box<ExpressionView>),
    Conjunction(Box<ExpressionView>, Box<ExpressionView>),
    Disjunction(Box<ExpressionView>, Box<ExpressionView>),
}

impl AtomView {
    /// The atom as text: `t`, `f`, a bare number, or `@name`.
    pub open spec fn rendered(self) -> Seq<char> {
        match self {
            AtomView::BooleanValue(b) => if b {
                "t"@
            } else {
                "f"@
            },
            AtomView::IntegerValue(n) => crate::text::decimal(n as nat),
            AtomView::AliasName(name) => "@"@ + name,
        }
    }
}

impl ExpressionView {
    /// The conjunction of two expressions.
    pub open spec fn and(self, other: ExpressionView) -> ExpressionView {
        ExpressionView::Conjunction(Box::new(self), Box::new(other))
    }

    /// The disjunction of two expressions.
    pub open spec fn or(self, other: ExpressionView) -> ExpressionView {
        ExpressionView::Disjunction(Box::new(self), Box::new(other))
    }

    /// The negation of an expression.
    pub open spec fn not(self) -> ExpressionView {
        ExpressionView::Negation(Box::new(self))
    }

    /// The expression as text, every binary node in parentheses.
    pub open spec fn rendered(self) -> Seq<char>
        decreases self,
    {
        match self {
            ExpressionView::Atom(atom) => atom.rendered(),
            ExpressionView::Negation(sub) => "!"@ + sub.rendered(),
            ExpressionView::Conjunction(left, right) => "("@ + left.rendered() + " & "@
                + right.rendered() + ")"@,
            ExpressionView::Disjunction(left, right) => "("@ + left.rendered() + " | "@
                + right.rendered() + ")"@,
        }
    }
}

impl View for BooleanAtom {
    type V = AtomView;

    open spec fn view(&self) -> AtomView {
        match self {
            BooleanAtom::BooleanValue(b) => AtomView::BooleanValue(*b),
            BooleanAtom::IntegerValue(n) => AtomView::IntegerValue(*n),
            BooleanAtom::AliasName(name) => AtomView::AliasName(name@),
        }
    }
}

impl BooleanExpression {
    /// The mathematical value of the expression.
    pub open spec fn model(self) -> ExpressionView
        decreases self,
    {
        match self {
            BooleanExpression::Atom(atom) => ExpressionView::Atom(atom@),
            BooleanExpression::Negation(sub) => ExpressionView::Negation(Box::new(sub.model())),
            BooleanExpression::Conjunction(left, right) => ExpressionView::Conjunction(
                Box::new(left.model()),
                Box::new(right.model()),
            ),
            BooleanExpression::Disjunction(left, right) => ExpressionView::Disjunction(
                Box::new(left.model()),
                Box::new(right.model()),
            ),
        }
    }
}

impl View for BooleanExpression {
    type V = ExpressionView;

    open spec fn view(&self) -> ExpressionView {
        self.model()
    }
}

impl From<BooleanAtom> for BooleanExpression {
    fn from(atom: BooleanAtom) -> (expression: BooleanExpression) {
        BooleanExpression::Atom(atom)
    }
}

impl FromSpecImpl<BooleanAtom> for BooleanExpression {
    open spec fn obeys_from_spec() -> bool {
        true
    }

    open spec fn from_spec(atom: BooleanAtom) -> BooleanExpression {
        BooleanExpression::Atom(atom)
    }
}

impl BooleanAtom {
    /// The literal `t`.
    pub fn btrue() -> (atom: BooleanAtom)
        ensures
            atom@ == AtomView::BooleanValue(true),
    {
        BooleanAtom::BooleanValue(true)
    }

    /// The literal `f`.
    pub fn bfalse() -> (atom: BooleanAtom)
        ensures
            atom@ == AtomView::BooleanValue(false),
    {
        BooleanAtom::BooleanValue(false)
    }

    /// The atomic proposition with the given index.
    pub fn bint(index: usize) -> (atom: BooleanAtom)
        ensures
            atom@ == AtomView::IntegerValue(index),
    {
        BooleanAtom::IntegerValue(index)
    }

    /// A reference to the alias with the given name.
    pub fn balias(name: &str) -> (atom: BooleanAtom)
        ensures
            atom@ == AtomView::AliasName(name@),
    {
        BooleanAtom::AliasName(owned(name))
    }

    /// Appends the atom's text to `out`.
    pub fn write_to(&self, out: &mut String)
        ensures
            final(out)@ == old(out)@ + self@.rendered(),
    {
        match self {
            BooleanAtom::BooleanValue(b) => {
                if *b {
                    push_text(out, "t");
                } else {
                    push_text(out, "f");
                }
            },
            BooleanAtom::IntegerValue(n) => {
                push_decimal(out, *n);
            },
            BooleanAtom::AliasName(name) => {
                push_text(out, "@");
                push_text(out, name.as_str());
                assert(out@ =~= old(out)@ + self@.rendered());
            },
        }
    }

    /// The atom as text: `t`, `f`, a bare number, or `@name`.
    pub fn to_string(&self) -> (s: String)
        ensures
            s@ == self@.rendered(),
    {
        let mut s = String::new();
        self.write_to(&mut s);
        assert(s@ =~= self@.rendered());
        s
    }
}

impl BooleanExpression {
    /// The conjunction of `self` and `other`.
    pub fn and(self, other: BooleanExpression) -> (expression: BooleanExpression)
        ensures
            expression@ == self@.and(other@),
    {
        BooleanExpression::Conjunction(Box::new(self), Box::new(other))
    }

    /// The disjunction of `self` and `other`.
    pub fn or(self, other: BooleanExpression) -> (expression: BooleanExpression)
        ensures
            expression@ == self@.or(other@),
    {
        BooleanExpression::Disjunction(Box::new(self), Box::new(other))
    }

    /// The negation of `self`.
    pub fn not(self) -> (expression: BooleanExpression)
        ensures
            expression@ == self@.not(),
    {
        BooleanExpression::Negation(Box::new(self))
    }

    /// Appends the expression's text to `out`.
    pub fn write_to(&self, out: &mut String)
        ensures
            final(out)@ == old(out)@ + self@.rendered(),
        decreases self,
    {
        match self {
            BooleanExpression::Atom(atom) => {
                atom.write_to(out);
            },
            BooleanExpression::Negation(sub) => {
                push_text(out, "!");
                sub.write_to(out);
                assert(out@ =~= old(out)@ + self@.rendered());
            },
            BooleanExpression::Conjunction(left, right) => {
                push_text(out, "(");
                left.write_to(out);
                push_text(out, " & ");
                right.write_to(out);
                push_text(out, ")");
                assert(out@ =~= old(out)@ + self@.rendered());
            },
            BooleanExpression::Disjunction(left, right) => {
                push_text(out, "(");
                left.write_to(out);
                push_text(out, " | ");
                right.write_to(out);
                push_text(out, ")");
                assert(out@ =~= old(out)@ + self@.rendered());
            },
        }
    }

    /// The expression as text, every binary node in parentheses.
    pub fn to_string(&self) -> (s: String)
        ensures
            s@ == self@.rendered(),
    {
        let mut s = String::new();
        self.write_to(&mut s);
        assert(s@ =~= self@.rendered());
        s
    }
}

impl AcceptanceIdent {
    /// The atom with the opposite polarity: the set for its complement, and back.
    pub open spec fn negated(self) -> AcceptanceIdent {
        match self {
            AcceptanceIdent::Fin(n) => AcceptanceIdent::FinNeg(n),
            AcceptanceIdent::FinNeg(n) => AcceptanceIdent::Fin(n),
            AcceptanceIdent::Inf(n) => AcceptanceIdent::InfNeg(n),
            AcceptanceIdent::InfNeg(n) => AcceptanceIdent::Inf(n),
        }
    }

    /// The atom as text: `Fin(n)`, `Fin(!n)`, `Inf(n)` or `Inf(!n)`.
    pub open spec fn rendered(self) -> Seq<char> {
        match self {
            AcceptanceIdent::Fin(n) => "Fin("@ + crate::text::decimal(n as nat) + ")"@,
            AcceptanceIdent::FinNeg(n) => "Fin(!"@ + crate::text::decimal(n as nat) + ")"@,
            AcceptanceIdent::Inf(n) => "Inf("@ + crate::text::decimal(n as nat) + ")"@,
            AcceptanceIdent::InfNeg(n) => "Inf(!"@ + crate::text::decimal(n as nat) + ")"@,
        }
    }

    /// Flips the polarity of the atom.
    pub fn not(self) -> (atom: AcceptanceIdent)
        ensures
            atom == self.negated(),
    {
        match self {
            AcceptanceIdent::Fin(n) => AcceptanceIdent::FinNeg(n),
            AcceptanceIdent::FinNeg(n) => AcceptanceIdent::Fin(n),
            AcceptanceIdent::Inf(n) => AcceptanceIdent::InfNeg(n),
            AcceptanceIdent::InfNeg(n) => AcceptanceIdent::Inf(n),
        }
    }

    /// Appends the atom's text to `out`.
    pub fn write_to(&self, out: &mut String)
        ensures
            final(out)@ == old(out)@ + self.rendered(),
    {
        match self {
            AcceptanceIdent::Fin(n) => {
                push_text(out, "Fin(");
                push_decimal(out, *n);
            },
            AcceptanceIdent::FinNeg(n) => {
                push_text(out, "Fin(!");
                push_decimal(out, *n);
            },
            AcceptanceIdent::Inf(n) => {
                push_text(out, "Inf(");
                push_decimal(out, *n);
            },
            AcceptanceIdent::InfNeg(n) => {
                push_text(out, "Inf(!");
                push_decimal(out, *n);
            },
        }
        push_text(out, ")");
        assert(out@ =~= old(out)@ + self.rendered());
    }

    /// The atom as text: `Fin(n)`, `Fin(!n)`, `Inf(n)` or `Inf(!n)`.
    pub fn to_string(&self) -> (s: String)
        ensures
            s@ == self.rendered(),
    {
        let mut s = String::new();
        self.write_to(&mut s);
        assert(s@ =~= self.rendered());
        s
    }
}

impl View for AcceptanceCondition {
    type V = AcceptanceCondition;

    open spec fn view(&self) -> AcceptanceCondition {
        *self
    }
}

impl AcceptanceCondition {
    /// The conjunction of two conditions.
    pub open spec fn spec_and(self, other: AcceptanceCondition) -> AcceptanceCondition {
        AcceptanceCondition::Conjunction(Box::new(self), Box::new(other))
    }

    /// The disjunction of two conditions.
    pub open spec fn spec_or(self, other: AcceptanceCondition) -> AcceptanceCondition {
        AcceptanceCondition::Disjunction(Box::new(self), Box::new(other))
    }

    /// The condition as text, every binary node in parentheses.
    pub open spec fn rendered(self) -> Seq<char>
        decreases self,
    {
        match self {
            AcceptanceCondition::Atom(atom) => atom.rendered(),
            AcceptanceCondition::Conjunction(left, right) => "("@ + left.rendered() + " & "@
                + right.rendered() + ")"@,
            AcceptanceCondition::Disjunction(left, right) => "("@ + left.rendered() + " | "@
                + right.rendered() + ")"@,
            AcceptanceCondition::BooleanValue(b) => if b {
                "t"@
            } else {
                "f"@
            },
        }
    }

    /// The conjunction of `self` and `other`.
    #[verifier::when_used_as_spec(spec_and)]
    pub fn and(self, other: AcceptanceCondition) -> (condition: AcceptanceCondition)
        ensures
            condition == self.spec_and(other),
    {
        AcceptanceCondition::Conjunction(Box::new(self), Box::new(other))
    }

    /// The disjunction of `self` and `other`.
    #[verifier::when_used_as_spec(spec_or)]
    pub fn or(self, other: AcceptanceCondition) -> (condition: AcceptanceCondition)
        ensures
            condition == self.spec_or(other),
    {
        AcceptanceCondition::Disjunction(Box::new(self), Box::new(other))
    }

    /// Appends the condition's text to `out`.
    pub fn write_to(&self, out: &mut String)
        ensures
            final(out)@ == old(out)@ + self.rendered(),
        decreases self,
    {
        match self {
            AcceptanceCondition::Atom(atom) => {
                atom.write_to(out);
            },
            AcceptanceCondition::Conjunction(left, right) => {
                push_text(out, "(");
                left.write_to(out);
                push_text(out, " & ");
                right.write_to(out);
                push_text(out, ")");
                assert(out@ =~= old(out)@ + self.rendered());
            },
            AcceptanceCondition::Disjunction(left, right) => {
                push_text(out, "(");
                left.write_to(out);
                push_text(out, " | ");
                right.write_to(out);
                push_text(out, ")");
                assert(out@ =~= old(out)@ + self.rendered());
            },
            AcceptanceCondition::BooleanValue(b) => {
                if *b {
                    push_text(out, "t");
                } else {
                    push_text(out, "f");
                }
            },
        }
    }

    /// The condition as text, every binary node in parentheses.
    pub fn to_string(&self) -> (s: String)
        ensures
            s@ == self.rendered(),
    {
        let mut s = String::new();
        self.write_to(&mut s);
        assert(s@ =~= self.rendered());
        s
    }
}

/// Flipping the polarity of an acceptance atom twice gives the atom back.
pub proof fn lemma_negation_is_involutive(atom: AcceptanceIdent)
    ensures
        atom.negated().negated() == atom,
{
}

} // verus!
