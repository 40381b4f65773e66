//! Random fixed-length, one-hot encoded slices of nucleotide records.
//!
//! The samplers decide which record is sampled, where each slice starts and
//! how symbols are encoded; the caller owns the record store and performs the
//! reads that the samplers ask for.

pub mod draw;
pub mod encode;
pub mod indexed;
pub mod stream;
pub mod tally;

pub use encode::{encode_base, encode_bases, encode_slice, get_interval};
pub use indexed::{get_fasta_indexed, IndexFastaIterator, SampleError, SlicePlan};
pub use stream::{
    get_fasta_iterator, get_fasta_reiterator, len_fasta_valid, FastaIterator, Fetched,
    ReFastaIterator, Step,
};
