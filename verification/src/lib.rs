//! Evaluation of spreadsheet-style workbooks: grids of literal values and
//! `=`-formulas that are resolved, cell by cell, to values or error tokens.
//!
//! - [`data`]: workbooks of plain cells, as they arrive and as they leave.
//! - [`sheets`]: sheets of expressions; the grammar of formulas
//!   ([`sheets::parse`]), the operators ([`sheets::operators`]), resolving
//!   ([`sheets::resolve`], [`sheets::rounds`]), the texts of errors
//!   ([`sheets::message`]), and what holds of it all ([`sheets::theory`]).
//! - [`types`]: the values a cell can hold.
//!
//! The library does no arithmetic on doubles itself: see [`types::float`].

pub mod data;
pub mod sheets;
pub mod text;
pub mod types;
