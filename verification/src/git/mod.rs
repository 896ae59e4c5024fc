//! Git support: the decisions around automatic commits and syncing with
//! remotes. Talking to the repository itself is left to the caller.
pub mod lock;
pub mod message;
pub mod plan;
pub mod report;
pub mod remotes;
pub mod ssh;
pub mod ssh_program;
