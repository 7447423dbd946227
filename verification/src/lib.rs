//! Symbolic engine of an interactive natural-deduction proof assistant for
//! propositional logic.
//!
//! The engine models formulas, sequents and proof trees, tracks the
//! placeholder fields a player still has to fill, applies natural-deduction
//! rules to open goals, supports undo/redo snapshots, and decides provability
//! of a sequent with a terminating sequent-calculus search.

pub mod action;
pub mod calcul;
pub mod fields;
pub mod formula;
pub mod parser;
pub mod prooftree;
pub mod rules;
pub mod sequent;
pub mod session;
pub mod settings;

pub use formula::Formula;
pub use formula::FormulaField;
pub use formula::Operator;
pub use formula::OperatorType;
pub use prooftree::Proof;
pub use rules::LogicSystem;
pub use sequent::Sequent;
pub use session::GameState;
pub use session::UndoState;
