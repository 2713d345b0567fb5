//! Hierarchical command matching for launcher plugins: a tree of labelled
//! matchers turns typed tokens into candidates, and a selected candidate's
//! payload is turned into an outcome.
pub mod candidate;
pub mod handlers;
pub mod matcher;
pub mod plugins;
pub mod text;
pub mod todo;
pub mod watson;
