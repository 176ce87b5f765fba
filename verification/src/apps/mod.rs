//! The userspace programs: the shell and the tools it launches.
pub mod init;
pub mod tool;
pub mod cat;
pub mod sed;
pub mod echo;
pub mod env;
pub mod ls;
pub mod tee;
