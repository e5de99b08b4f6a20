//! The broker: the registry of users, computers and folders, the rules of
//! who may write to a folder, and what each message from an agent leads to.

pub mod handlers;
pub mod protocol;
pub mod server;
pub mod state;
pub mod topology;
