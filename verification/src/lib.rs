//! The logic of a small interactive shell for a local filesystem.
//!
//! The heart of it is the transfer engine in `engine`: a machine that copies
//! or moves a file or a whole directory tree one filesystem operation at a
//! time, deciding collisions by `policy`, finding numbered names by `rename`
//! and working on the paths of `path`. `memfs` is a filesystem in memory,
//! `transfer` runs the engine against it, and the `laws` modules prove what
//! a transfer does to such a tree. The remaining modules read command lines
//! and arguments and put together what the shell prints.

pub mod args;
pub mod command;
pub mod engine;
pub mod launch;
pub mod laws;
pub mod laws_carry;
pub mod laws_mirror;
pub mod laws_move;
pub mod laws_refusal;
pub mod laws_success;
pub mod listing;
pub mod memfs;
pub mod palette;
pub mod path;
pub mod policy;
pub mod prefix;
pub mod rename;
pub mod report;
pub mod size;
pub mod text;
pub mod transfer;
pub mod tree;
