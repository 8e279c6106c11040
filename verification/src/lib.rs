//! Comparison of the outcomes of a corpus of crates on two toolchains, and
//! assembly of the comparison into a report that is the same whenever the
//! outcomes are.
//!
//! The crates of an experiment are run on a baseline and on a candidate
//! toolchain. [`comparison`] classifies a crate from its pair of outcomes,
//! [`analyzer`] assembles the classified crates into a report, [`context`]
//! builds what a page of the report is rendered from, and [`writer`] lays
//! out the pages and files of the report in either of two modes: rendered
//! for a reader, or dumped in a sorted form ([`snapshot`]) for comparison
//! with an earlier run.
//!
//! Nothing here reads or writes a file: the caller renders the pages and
//! stores what [`writer`] hands out.

pub mod analyzer;
pub mod comparison;
pub mod context;
pub mod display;
pub mod distinct;
pub mod grouping;
pub mod html;
pub mod laws;
pub mod report;
pub mod results;
pub mod serialize;
pub mod snapshot;
pub mod table;
pub mod writer;
