//! The engine of an agent: streaming turns, running tools, and the loop around them.

pub mod commands;
pub mod run;
pub mod tools;
pub mod turn;
