//! Template-preserving bulk workbook generator.
//!
//! Given a template spreadsheet package (a zipped multi-part workbook or a
//! flat single-document one), a list of column-to-cell mappings and a sequence
//! of input rows, the library produces an output package holding one worksheet
//! per input row: each worksheet is a clone of the template sheet with only
//! the mapped cells overwritten, while every other part of the package is
//! carried through unchanged.

pub mod assemble;
pub mod cell;
pub mod container;
pub mod errors;
pub mod flat;
pub mod lexer;
pub mod modules;
pub mod package;
pub mod patch;
pub mod state;
pub mod workflow;
pub mod xml;
