//! An in-memory virtual file system that backs a simulated command shell.
//!
//! The crate models a tree of inodes (files, directories, symbolic links)
//! with POSIX-style permission bits, user and group ownership, and
//! shell-style path semantics (absolute, home-relative, parent, previous
//! directory).  A [`FileSystem`] owns the inode tree and the identity
//! stores; a [`Session`] layers per-shell navigation state (current and
//! previous working directory, acting user, command history) on top of it.

pub mod commands;
pub mod errors;
pub mod fs;
pub mod sessions;
pub mod strutil;

pub use errors::ShellError;
pub use fs::FileSystem;
pub use sessions::Session;
pub use fs::inode::Inode;
pub use fs::content::InodeContent;
pub use fs::metadata::InodeMetadata;
pub use fs::permissions::FilePermissions;
pub use fs::users::{Group, GroupId, User, UserId};
