//! Verified core of an agent runtime.

pub mod agent;
pub mod collections;
pub mod compactor;
pub mod context;
pub mod event;
pub mod file_lock;
pub mod json;
pub mod message;
pub mod ordered;
pub mod paths;
pub mod plugin;
pub mod provider;
pub mod remote;
pub mod runtime;
pub mod schema;
pub mod server;
pub mod session;
pub mod text;
pub mod tool;
pub mod tools;
