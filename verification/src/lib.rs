//! Kernel extension layer: page allocators, an adaptive replacement cache,
//! a file-change notification bus and the file-operation hooks that tie
//! them together.

pub mod arith;
pub mod seqs;
pub mod maps;
pub mod text;
pub mod allocators;
pub mod cache;
pub mod notify;
pub mod hooks;
pub mod vfs;
pub mod path;
pub mod uapi;
pub mod process;
