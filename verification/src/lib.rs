//! Validation of sequencing reads stored as four-line records: the record
//! model with its reader and writer, the validators with their levels and
//! codes, the single- and paired-stream scans that report each violation
//! with its file, line and column, and a generator of well-formed pairs of
//! reads.
//!
//! The contracts of the functions are stated over the views of the data
//! and proved; [`laws`] holds what follows from them for the library as a
//! whole.

pub mod bytes;
pub mod commands;
pub mod fastq;
pub mod generator;
pub mod laws;
pub mod text;
pub mod validators;
