//! The built-in tools.

pub mod bash;
pub mod deferred;
pub mod echo;
pub mod edit;
pub mod file_mutation_queue;
pub mod files;
pub mod read;
pub mod write;
