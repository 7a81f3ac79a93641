//! Validation of structured configuration documents against a declarative schema.
//!
//! A document, written in YAML or JSON, is parsed into a value tree
//! ([`value::ConfigValue`]). A schema is a tree of typed rules
//! ([`schema::SchemaRule`]) that is checked for consistency once, when it is
//! loaded. Validation ([`validation::validate`]) walks the two trees in lock-step
//! and reports every violation, not just the first; an optional pass
//! ([`lines::find_line_numbers`]) gives each violation the line of the source
//! text that seems to declare its field.
//!
//! The modules, leaf first:
//!
//! - [`text`]: decimal rendering and other small helpers for messages;
//! - [`number`]: numbers, and ordering and closeness of binary64 bit patterns in
//!   integer arithmetic;
//! - [`value`]: the value tree;
//! - [`pattern`]: regular expressions, compiled and matched by the `regex` crate;
//! - [`error`]: the failures of the tool, their messages and exit codes;
//! - [`schema`]: the rule tree and its consistency check;
//! - [`validation`]: the walk that finds the violations;
//! - [`lines`]: the line mapper;
//! - [`tree`]: reading the tree that the document parsers hand out;
//! - [`config`]: documents and their formats;
//! - [`reporting`]: reports as text and as JSON;
//! - [`cli`]: the decisions of a run over several documents or directories;
//! - [`laws`]: what holds of every validation;
//! - [`outside`]: types of outside crates that pass through unopened.

pub mod cli;
pub mod config;
pub mod error;
pub mod laws;
pub mod lines;
pub mod number;
pub mod outside;
pub mod pattern;
pub mod reporting;
pub mod schema;
pub mod text;
pub mod tree;
pub mod validation;
pub mod value;
