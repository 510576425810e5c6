//! The core of a calculator that lives in a terminal: a grid of labelled
//! cells, each holding a formula that is evaluated against the cells above
//! it.
//!
//! The crate plans what has to be computed for a cell, turns the answers of
//! an arithmetic evaluator into displayed values, keeps named sections of
//! cell texts, and remembers the grid for undo.  Drawing, reading keys,
//! files and arithmetic on binary floating-point numbers are left to the
//! program around it.

use vstd::prelude::*;

pub mod catalog;
pub mod commands;
pub mod dict;
pub mod document;
pub mod edit;
pub mod evaluate;
pub mod format;
pub mod keys;
pub mod normalize;
pub mod pass;
pub mod pattern;
pub mod rate;
pub mod resolve;
pub mod sections;
pub mod session;
pub mod snapshot;
pub mod store;
pub mod text;
pub mod undo;
