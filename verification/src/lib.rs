//! Path mapping, transfer invocations, progress interpretation and change-tree
//! rendering for synchronising a local path with a remote host.

pub mod hosts;
pub mod invocation;
pub mod number;
pub mod order;
pub mod path;
pub mod path_laws;
pub mod preview;
pub mod progress;
pub mod session;
pub mod shell;
pub mod size;
pub mod split;
pub mod split_laws;
pub mod summary;
pub mod text;
pub mod tree;
pub mod tree_laws;
