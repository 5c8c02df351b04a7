//! Verified core of a mod build tool: it merges a project's own source tree
//! with the trees of its dependencies into one output plan, dispatching
//! per-extension build rules and reusing a previous build's outputs where
//! they are complete.
//!
//! The engine works on an explicit snapshot of the relevant directory
//! trees; the thin unverified front end performs the actual filesystem
//! walking, hard linking and subprocess launching that the plan prescribes.
pub mod builder;
pub mod codec;
pub mod compile;
pub mod config;
pub mod item;
pub mod launch;
pub mod laws;
pub mod logger;
pub mod lua;
pub mod md2bb;
pub mod paths;
pub mod project;
pub mod rules;
pub mod seqs;
pub mod text;
pub mod util;
