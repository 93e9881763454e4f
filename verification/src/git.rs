//! Access to git: object hashes, commit objects, and the commands that read a
//! repository.

pub mod commit_object;
pub mod object_hash;
pub mod repository;

pub use commit_object::CommitObject;
pub use object_hash::{DecodeError, ObjectHash};
pub use repository::{GitCommand, GitOutput, GitRepository};
