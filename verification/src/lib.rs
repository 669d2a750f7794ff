//! A layered, copy-on-write filesystem store: tables of layers, inodes and
//! blocks, their union view, and the operations that a mounted filesystem
//! and its control prompt perform on them.
pub mod clock;
pub mod control;
pub mod database;
pub mod engine;
pub mod fs_laws;
pub mod report;
pub mod text;
