//! Core engine of a small continuous-integration runner.
//!
//! A workspace lists build jobs; each job polls a git remote, keeps one
//! worker per observed branch, and each branch worker starts at most one
//! build per new commit, numbering builds from a persistent counter and
//! recording their history.  This crate holds the verified logic of that
//! engine: configuration validation, the per-branch and per-job state
//! machines, build numbering, log pagination, and the on-disk text formats.
//! Process supervision, git access and the HTTP surface drive these
//! functions from outside.

pub mod branch;
pub mod command;
pub mod job;
pub mod json;
pub mod logview;
pub mod models;
pub mod root;
pub mod text;
pub mod yaml;
