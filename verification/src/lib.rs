//! A small query-plan matrix and its two rewrite passes: dead-column
//! elimination and filter hoisting below grouping boundaries.
//!
//! A plan is a sequence of steps, each a row of cells, one per column that
//! is active at that stage; rows may differ in length. `Query::optimize`
//! copies a plan, strips the columns that were judged dead, and raises each
//! step that filters as far up as its wall allows.

pub mod action;
pub mod cells;
pub mod col;
pub mod hoist;
pub mod optimize;
pub mod origins;
pub mod prune;
pub mod query;
pub mod render;
pub mod step;
pub mod survivors;

pub use action::Action;
pub use col::Col;
pub use query::Query;
pub use step::Step;
