//! A tiny stack language: scripts of `push "literal"` and `pop` expressions are
//! parsed into a tree of rule-tagged nodes and executed against a stack of strings.

pub mod grammar;
pub mod text;
pub mod executor;
pub mod program;
