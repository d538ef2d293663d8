//! The state-machine model that the parser produces and the diagram builder
//! consumes. Identifiers are opaque strings; nothing here checks that a
//! state that is referred to is also declared.

use vstd::prelude::*;

verus! {

/// One outgoing edge of a state.
#[derive(Clone, Debug, PartialEq, Eq)]
pub struct Transition {
    /// The input that triggers the transition.
    pub input_value: String,
    /// The state the machine is in afterwards.
    pub final_state: String,
    /// The action that the transition runs, if any.
    pub output: Option<String>,
}

/// A state together with its outgoing transitions, in declaration order.
#[derive(Clone, Debug, PartialEq, Eq)]
pub struct FromState {
    /// The state the transitions leave from.
    pub initial_state: String,
    /// Its outgoing transitions.
    pub transitions: Vec<Transition>,
}

/// A whole state machine.
#[derive(Clone, Debug, PartialEq, Eq)]
pub struct StateMachineDef {
    /// The machine's name, also the diagram's title.
    pub name: String,
    /// The state the machine starts in.
    pub initial_state: String,
    /// The declared source states, in declaration order.
    pub transitions: Vec<FromState>,
}

/// Mathematical content of a [`Transition`].
pub struct TransitionView {
    pub input_value: Seq<char>,
    pub final_state: Seq<char>,
    pub output: Option<Seq<char>>,
}

/// Mathematical content of a [`FromState`].
pub struct FromStateView {
    pub initial_state: Seq<char>,
    pub transitions: Seq<TransitionView>,
}

/// Mathematical content of a [`StateMachineDef`].
pub struct StateMachineDefView {
    pub name: Seq<char>,
    pub initial_state: Seq<char>,
    pub transitions: Seq<FromStateView>,
}

impl View for Transition {
    type V = TransitionView;

    open spec fn view(&self) -> TransitionView {
        TransitionView {
            input_value: self.input_value@,
            final_state: self.final_state@,
            output: self.output.deep_view(),
        }
    }
}

impl View for FromState {
    type V = FromStateView;

    open spec fn view(&self) -> FromStateView {
        FromStateView {
            initial_state: self.initial_state@,
            transitions: self.transitions@.map_values(|t: Transition| t@),
        }
    }
}

impl View for StateMachineDef {
    type V = StateMachineDefView;

    open spec fn view(&self) -> StateMachineDefView {
        StateMachineDefView {
            name: self.name@,
            initial_state: self.initial_state@,
            transitions: self.transitions@.map_values(|f: FromState| f@),
        }
    }
}

} // verus!
