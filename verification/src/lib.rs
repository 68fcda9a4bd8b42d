//! Session bookkeeping for an agent CLI: finding the GitHub pull requests a
//! conversation refers to, inferring a session's lifecycle status from them,
//! and the selection and formatting rules of the session commands.

pub mod commands;
pub mod conversation;
pub mod mentions;
pub mod pr_status;
pub mod session;
pub mod text;
