//! Batch conversion of Markdown documents into Typst sources.
//!
//! A run converts each Markdown file of a directory with pandoc, puts a
//! project header before the converted text, rewrites a few patterns in it
//! and has typst compile the result. This library holds what such a run
//! decides and computes; running programs and touching files is left to the
//! caller.
//!
//! - [`rules`] defines the rewrite rules and applies one rule to a text;
//!   [`rewrite`] applies them all in their order.
//! - [`equations`], [`links`], [`occurrences`], [`locality`], [`changes`]
//!   and [`stability`] state and prove what the rules do: what becomes of a
//!   system of two equations and of a link, that each occurrence of a
//!   literal is replaced once, that the line rules work line by line, and
//!   when a second application of the line rules changes nothing.
//! - [`header`] writes the header block, [`clock`] reads the day for it.
//! - [`document`] splits a converted text into lines and builds the
//!   finalized file.
//! - [`paths`] names the files of a document and tells which files a run
//!   takes up; [`batch`] reads the arguments and selects the files.
//! - [`pipeline`] is the pipeline of one file, as a machine that answers
//!   the outcome of each action with the next action.
//! - [`text`] holds the conversions and predicates that the others share.

pub mod batch;
pub mod changes;
pub mod clock;
pub mod document;
pub mod equations;
pub mod header;
pub mod links;
pub mod locality;
pub mod occurrences;
pub mod paths;
pub mod pipeline;
pub mod rewrite;
pub mod rules;
pub mod stability;
pub mod text;
