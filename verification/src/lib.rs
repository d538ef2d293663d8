//! Turns a finite-state-machine description, given as a sequence of lexical
//! tokens, into a directed-graph diagram in the DOT language.
//!
//! The crate has two stages. [`parser`] reads a token sequence into a
//! [`model::StateMachineDef`]; [`diagram`] renders that model as DOT text.
//! [`grid`] lays long label lists out as a near-square block, [`group`] merges
//! parallel transitions while keeping their first-seen order, and [`text`]
//! holds the few string operations the rest is built from.

pub mod text;
pub mod grid;
pub mod model;
pub mod token;
pub mod parser;
pub mod group;
pub mod diagram;

pub use crate::diagram::{fsm_to_graphviz, insert_edge};
pub use crate::grid::format_label_grid;
pub use crate::group::{into_linked_group_map, ILGM};
pub use crate::model::{FromState, StateMachineDef, Transition};
pub use crate::parser::{parse, ParseError};
pub use crate::token::Token;
