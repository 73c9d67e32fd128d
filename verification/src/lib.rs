//! An e-graph front end with first-class facts: function and ruleset
//! registries, fact references with truth status, backend rule
//! translation, term dags and command output rendering.
pub mod span;
pub mod error;
pub mod ids;
pub mod values;
pub mod sorts;
pub mod backend;
pub mod names;
pub mod text;
pub mod termdag;
pub mod factref;
pub mod merge;
pub mod egraph;
pub mod atoms;
pub mod rule;
pub mod translate;
pub mod backend_rule;
pub mod search;
pub mod input;
pub mod output;
pub mod laws;
pub mod text_laws;
