//! Identifier-driven filtering of sequencing records.
//!
//! Given a list of read identifiers, the library decides which alignment
//! records and which FASTQ read pairs are kept, how kept records are written
//! as FASTA and FASTQ text, where the filtered files go, and which identifiers
//! end up in the manifest. Reading and writing files is left to the caller:
//! every function here takes and returns plain values.

pub mod batch;
pub mod bytes;
pub mod cli;
pub mod error;
pub mod identifier;
pub mod laws;
pub mod matcher;
pub mod pairing;
pub mod pipeline;
pub mod record;
pub mod router;
pub mod source;
