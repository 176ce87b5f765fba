//! A small x86_64 kernel's logic and its userspace tools, with proofs.
pub mod elf;
pub mod bytes;
pub mod vfs;
pub mod process;
pub mod text;
pub mod apps;
pub mod keyboard;
pub mod paging;
pub mod allocator;
pub mod syscall;
pub mod libos;
pub mod user;
pub mod writes;
