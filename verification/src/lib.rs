//! A linter for commit messages that follow the conventional form
//! `type(scope)!: subject`, and the access to git that it needs.
//!
//! [`check_commit_message`] lists the rules that a message breaks. The module
//! [`git`] reads hashes and commit objects, builds the git commands that list
//! the commits of a range, and reads what those commands write. The commands
//! themselves are run by the caller.

pub mod bytes;
pub mod git;
pub mod header;
pub mod message;
pub mod text;

pub use message::{check_commit_message, check_header, MessageError};
