//! A workspace of many Git repositories, described by manifests.
//!
//! The manifest documents are loaded in inclusion order (`loader`,
//! `inclusion`), merged into one resolved manifest (`project`, `table`,
//! `resolver`, `merge_laws`), narrowed to the sync set (`filter`,
//! `command`), and materialised by a run of bounded concurrency (`sync`,
//! `run`), after which the file projections of each project are planned
//! and checked (`overlay`). Reading files, cloning and copying are the
//! caller's work; every decision is made here.

pub mod command;
pub mod filter;
pub mod inclusion;
pub mod loader;
pub mod manifest;
pub mod merge_laws;
pub mod overlay;
pub mod project;
pub mod resolver;
pub mod run;
pub mod sync;
pub mod table;
pub mod text;
