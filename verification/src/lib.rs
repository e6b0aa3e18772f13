//! The tools of a code-graph server, verified.
//!
//! A code graph holds the symbols, calls, includes and inheritance of a code
//! base. The tools answer questions about it as text: pages of records in JSON,
//! or a message that says why there is no answer. What the graph itself finds is
//! handed to them; what becomes of it is decided and computed here.
//!
//! - [`handlers`]: the tools.
//! - [`indexer`]: what comes of parsing, indexes by name, and the resolution of
//!   edges.
//! - [`analyze_job`] and [`analyze_run`]: the job of analyzing a code base, one
//!   at a time, and what it decides on its way.
//! - [`page`], [`reply`], [`json`]: pages held to a size, answers and their text.
//! - [`model`]: the records of the graph.
//! - [`laws`]: what the tools do for those who ask, stated of requests and answers.
//! - [`sort`], [`table`], [`text`], [`edit_distance`], [`calendar`], [`clock`]:
//!   what all of these build on.

pub mod analyze_job;
pub mod analyze_run;
pub mod calendar;
pub mod clock;
pub mod edit_distance;
pub mod handlers;
pub mod indexer;
pub mod json;
pub mod laws;
pub mod model;
pub mod page;
pub mod reply;
pub mod sort;
pub mod table;
pub mod text;
