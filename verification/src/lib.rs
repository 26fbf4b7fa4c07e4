//! Lexical-analysis front end for a small interpreted scripting language.
//!
//! The core is the scanner in [`lexer`]: a single-pass, cursor-driven
//! algorithm that partitions source text into classified tokens, tracks
//! line numbers, and recovers from unexpected characters without aborting.
//! The mathematical model of a scan, and the laws proved about it, live in
//! [`model`]. [`utils`] holds the scan-error value and [`interp`] the thin
//! driver that runs a scan and reports how it went.

pub mod interp;
pub mod laws;
pub mod lexer;
pub mod model;
pub mod utils;
