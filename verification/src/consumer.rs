//! The consumer of a parse: what the parser tells it, call by call.

use vstd::prelude::*;
use crate::parser::expression::{AcceptanceCondition, BooleanExpression, ExpressionView};

verus! {

/// An item of extra information behind the name of an acceptance class.
#[derive(Debug, Clone, PartialEq)]
pub enum AccnameInfo {
    StringValue(String),
    IntegerValue(usize),
    BooleanValue(bool),
}

/// The mathematical value of an [`AccnameInfo`].
pub enum AccnameInfoView {
    StringValue(Seq<char>),
    IntegerValue(usize),
    BooleanValue(bool),
}

impl View for AccnameInfo {
    type V = AccnameInfoView;

    open spec fn view(&self) -> AccnameInfoView {
        match self {
            AccnameInfo::StringValue(s) => AccnameInfoView::StringValue(s@),
            AccnameInfo::IntegerValue(n) => AccnameInfoView::IntegerValue(*n),
            AccnameInfo::BooleanValue(b) => AccnameInfoView::BooleanValue(*b),
        }
    }
}

/// One call on a consumer, with the values handed to it.
pub enum ConsumerCall {
    NotifyHeaderStart { version: Seq<char> },
    SetNumberOfStates { count: usize },
    AddStartStates { states: Seq<usize> },
    SetAps { names: Seq<Seq<char>> },
    AddAlias { name: Seq<char>, expr: ExpressionView },
    SetAcceptanceCondition { sets: usize, expr: AcceptanceCondition },
    ProvideAcceptanceName { name: Seq<char>, extra_info: Seq<AccnameInfoView> },
    SetTool { info: Seq<Seq<char>> },
    SetName { name: Seq<char> },
    AddProperties { props: Seq<Seq<char>> },
    AddState {
        number: usize,
        name: Option<Seq<char>>,
        label: Option<ExpressionView>,
        acc_sig: Option<Seq<usize>>,
    },
    AddEdgeWithLabel {
        state: usize,
        label: ExpressionView,
        targets: Seq<usize>,
        acc_sig: Option<Seq<usize>>,
    },
    AddEdgeImplicit { state: usize, targets: Seq<usize>, acc_sig: Option<Seq<usize>> },
    NotifyEndOfState { state: usize },
}

/// What receives an automaton while it is parsed.  The parser calls these
/// methods in the order of the input; what they do is up to the consumer.
pub trait HoaConsumer {
    /// The header starts; `version` is the version of the format.
    fn notify_header_start(&mut self, version: &String);

    /// The automaton has this many states.
    fn set_number_of_states(&mut self, count: usize);

    /// These states are initial together.
    fn add_start_states(&mut self, states: Vec<usize>);

    /// The atomic propositions have these names, in this order.
    fn set_aps(&mut self, names: Vec<String>);

    /// The alias `name` stands for `expr`.
    fn add_alias(&mut self, name: &String, expr: &BooleanExpression);

    /// The automaton has `sets` acceptance sets and accepts by `expr`.
    fn set_acceptance_condition(&mut self, sets: usize, expr: &AcceptanceCondition);

    /// The acceptance condition is known under `name`, with these parameters.
    fn provide_acceptance_name(&mut self, name: &String, extra_info: &Vec<AccnameInfo>);

    /// The automaton was made by this tool.
    fn set_tool(&mut self, info: Vec<String>);

    /// The automaton has this name.
    fn set_name(&mut self, name: &String);

    /// The automaton has these properties.
    fn add_properties(&mut self, props: Vec<String>);

    /// A state is declared.
    fn add_state(
        &mut self,
        number: usize,
        name: Option<&String>,
        label: Option<&BooleanExpression>,
        acc_sig: Option<&Vec<usize>>,
    );

    /// An edge of state `state` that has a label, its own or that of the state.
    fn add_edge_with_label(
        &mut self,
        state: usize,
        label: &BooleanExpression,
        targets: &Vec<usize>,
        acc_sig: Option<&Vec<usize>>,
    );

    /// An edge of state `state` without a label.
    fn add_edge_implicit(&mut self, state: usize, targets: &Vec<usize>, acc_sig: Option<&Vec<usize>>);

    /// The definition of state `state` is finished.
    fn notify_end_of_state(&mut self, state: usize);
}

} // verus!
