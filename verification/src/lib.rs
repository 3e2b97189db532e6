//! Operation tracking and audit logging for a file-synchronisation client.

pub mod audit;
pub mod history;
mod ident;
pub mod lines;
pub mod model;
pub mod order;
pub mod query;
pub mod retention;
pub mod select;
pub mod text;
pub mod time;
pub mod tracker;
