//! Cross-repository CI signalling.
//!
//! A set of repositories depend on one another. A manifest says which
//! repositories there are and what each depends on; the plan built from it is
//! a directed graph with an edge from each repository to those that depend on
//! it. The plan answers two questions: who depends directly on a repository,
//! and so has to be told when it changes; and what does a repository depend
//! on, directly or through others.
//!
//! - [`repo`], [`event`], [`error`], [`default`]: the values that are passed
//!   around.
//! - [`manifest`], [`manifest_file`], [`document`]: the manifest, and reading
//!   it from TOML.
//! - [`plan`], [`graph`], [`index`], [`closure`], [`laws`]: the plan, the
//!   graph under it, and what holds of them.
//! - [`cmd`], [`handle`], [`git`]: from the command line to an event, from an
//!   event to the work it asks for, and from the work to git commands.
//! - [`text`]: comparing strings.

pub mod closure;
pub mod cmd;
pub mod default;
pub mod document;
pub mod error;
pub mod event;
pub mod git;
pub mod graph;
pub mod handle;
pub mod index;
pub mod laws;
pub mod manifest;
pub mod manifest_file;
pub mod plan;
pub mod repo;
pub mod text;
