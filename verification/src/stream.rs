//! The two streaming samplers. The caller reads the store record by record
//! and hands each outcome to the sampler, which answers with what to do next.

use crate::draw::{draw_between, entropy_rng};
use crate::encode::{encode_slice, encodes};
use crate::tally::{count_matching, lemma_count_step};
use rand::rngs::SmallRng;
use vstd::prelude::*;

verus! {

/// What one read of the streaming store gave.
pub enum Fetched {
    /// A record: its symbols and, where it has one, its description.
    Record { seq: Vec<u8>, desc: Option<String> },
    /// A record that the store could not parse.
    Unreadable,
    /// The store is exhausted.
    End,
}

/// What a streaming sampler answers to a read.
pub enum Step<T> {
    /// The next item of the sequence.
    Yield(T),
    /// Nothing to give for this read: read the next record.
    ReadNext,
    /// Reopen the store at its first record, then read.
    Reopen,
    /// The sequence has ended.
    Finish,
}

/// `out` encodes `size` consecutive symbols of `symbols` that start below
/// `bound`.
pub open spec fn is_slice_of(out: Seq<[u8; 4]>, symbols: Seq<u8>, size: int, bound: int) -> bool {
    exists|start: int|
        0 <= start < bound && start + size <= symbols.len() && #[trigger] encodes(
            out,
            symbols.subrange(start, start + size),
        )
}

/// The description handed on with a slice: the record's own, or the empty
/// text where it has none.
pub open spec fn desc_text(desc: Option<String>) -> Seq<char> {
    match desc {
        Some(d) => d@,
        None => Seq::empty(),
    }
}

/// Whether `len_fasta_valid` counts a record of length `len`.
pub open spec fn counted_valid(len: int, slice_size: int) -> bool {
    len >= slice_size
}

/// The condition under which `len_fasta_valid` counts a length.
pub open spec fn is_counted(slice_size: usize) -> spec_fn(usize) -> bool {
    |len: usize| counted_valid(len as int, slice_size as int)
}

/// Samples one slice from each record that is long enough.
pub struct FastaIterator {
    slice_size: usize,
    cycle: bool,
    rng: SmallRng,
}

impl FastaIterator {
    /// The length of each slice.
    pub closed spec fn spec_slice_size(&self) -> usize {
        self.slice_size
    }

    /// Whether the sampler starts over at the end of the store.
    pub closed spec fn spec_cycle(&self) -> bool {
        self.cycle
    }

    /// The length of each slice.
    #[verifier::when_used_as_spec(spec_slice_size)]
    pub fn slice_size(&self) -> (size: usize)
        ensures
            size == self.spec_slice_size(),
    {
        self.slice_size
    }

    /// Whether the sampler starts over at the end of the store.
    #[verifier::when_used_as_spec(spec_cycle)]
    pub fn cycle(&self) -> (cycle: bool)
        ensures
            cycle == self.spec_cycle(),
    {
        self.cycle
    }

    /// Whether a record of length `len` gives a slice.
    pub open spec fn yields(len: int, slice_size: int) -> bool {
        len >= slice_size
    }

    /// One past the last start that a record of length `len` admits: only 0
    /// where the record is exactly as long as a slice.
    pub open spec fn start_bound(len: int, slice_size: int) -> int {
        if len == slice_size {
            1
        } else {
            len - slice_size
        }
    }

    /// Answers one read. A record at least as long as a slice gives one slice
    /// with its description; a shorter or unreadable one is passed over; at the
    /// end of the store a cycling sampler starts over and another one ends.
    pub fn step(&mut self, event: Fetched) -> (out: Step<(Vec<[u8; 4]>, String)>)
        ensures
            final(self).slice_size() == old(self).slice_size(),
            final(self).cycle() == old(self).cycle(),
            event is End && old(self).cycle() ==> out is Reopen,
            event is End && !old(self).cycle() ==> out is Finish,
            event is Unreadable ==> out is ReadNext,
            event matches Fetched::Record { seq, desc } ==> (if Self::yields(
                seq@.len() as int,
                old(self).slice_size() as int,
            ) {
                out matches Step::Yield(item) && item.1@ == desc_text(desc) && is_slice_of(
                    item.0@,
                    seq@,
                    old(self).slice_size() as int,
                    Self::start_bound(seq@.len() as int, old(self).slice_size() as int),
                )
            } else {
                out is ReadNext
            }),
    {
        match event {
            Fetched::Record { seq, desc } => {
                let length: usize = seq.len();
                if length < self.slice_size {
                    return Step::ReadNext;
                }
                let start: usize = if length == self.slice_size {
                    0
                } else {
                    draw_between(&mut self.rng, 0, length - self.slice_size)
                };
                let slice = encode_slice(&seq, start, self.slice_size);
                let text = match desc {
                    Some(d) => d,
                    None => String::new(),
                };
                Step::Yield((slice, text))
            },
            Fetched::Unreadable => Step::ReadNext,
            Fetched::End => if self.cycle {
                Step::Reopen
            } else {
                Step::Finish
            },
        }
    }
}

/// Samples `n_samples` slices from each record that is longer than a slice.
pub struct ReFastaIterator {
    slice_size: usize,
    cycle: bool,
    n_samples: usize,
    rng: SmallRng,
}

impl ReFastaIterator {
    /// The length of each slice.
    pub closed spec fn spec_slice_size(&self) -> usize {
        self.slice_size
    }

    /// Whether the sampler starts over at the end of the store.
    pub closed spec fn spec_cycle(&self) -> bool {
        self.cycle
    }

    /// How many slices each record gives.
    pub closed spec fn spec_n_samples(&self) -> usize {
        self.n_samples
    }

    /// The length of each slice.
    #[verifier::when_used_as_spec(spec_slice_size)]
    pub fn slice_size(&self) -> (size: usize)
        ensures
            size == self.spec_slice_size(),
    {
        self.slice_size
    }

    /// Whether the sampler starts over at the end of the store.
    #[verifier::when_used_as_spec(spec_cycle)]
    pub fn cycle(&self) -> (cycle: bool)
        ensures
            cycle == self.spec_cycle(),
    {
        self.cycle
    }

    /// How many slices each record gives.
    #[verifier::when_used_as_spec(spec_n_samples)]
    pub fn n_samples(&self) -> (n: usize)
        ensures
            n == self.spec_n_samples(),
    {
        self.n_samples
    }

    /// Whether a record of length `len` gives slices.
    pub open spec fn yields(len: int, slice_size: int) -> bool {
        len > slice_size
    }

    /// Answers one read. A record longer than a slice gives `n_samples`
    /// slices, each with a start of its own; any other record is passed over;
    /// at the end of the store a cycling sampler starts over and another one
    /// ends.
    pub fn step(&mut self, event: Fetched) -> (out: Step<Vec<Vec<[u8; 4]>>>)
        ensures
            final(self).slice_size() == old(self).slice_size(),
            final(self).cycle() == old(self).cycle(),
            final(self).n_samples() == old(self).n_samples(),
            event is End && old(self).cycle() ==> out is Reopen,
            event is End && !old(self).cycle() ==> out is Finish,
            event is Unreadable ==> out is ReadNext,
            event matches Fetched::Record { seq, desc } ==> (if Self::yields(
                seq@.len() as int,
                old(self).slice_size() as int,
            ) {
                out matches Step::Yield(batch) && batch@.len() == old(self).n_samples()
                    && forall|j: int|
                    0 <= j < batch@.len() ==> is_slice_of(
                        (#[trigger] batch@[j])@,
                        seq@,
                        old(self).slice_size() as int,
                        seq@.len() - old(self).slice_size(),
                    )
            } else {
                out is ReadNext
            }),
    {
        match event {
            Fetched::Record { seq, desc } => {
                let length: usize = seq.len();
                if length <= self.slice_size {
                    return Step::ReadNext;
                }
                let bound: usize = length - self.slice_size;
                let mut batch: Vec<Vec<[u8; 4]>> = Vec::new();
                let mut j: usize = 0;
                while j < self.n_samples
                    invariant
                        self.slice_size == old(self).slice_size,
                        self.cycle == old(self).cycle,
                        self.n_samples == old(self).n_samples,
                        length == seq@.len(),
                        self.slice_size < length,
                        bound == length - self.slice_size,
                        j <= self.n_samples,
                        batch@.len() == j,
                        forall|k: int|
                            0 <= k < j ==> is_slice_of(
                                (#[trigger] batch@[k])@,
                                seq@,
                                self.slice_size as int,
                                bound as int,
                            ),
                    decreases self.n_samples - j,
                {
                    let start: usize = draw_between(&mut self.rng, 0, bound);
                    batch.push(encode_slice(&seq, start, self.slice_size));
                    j += 1;
                }
                Step::Yield(batch)
            },
            Fetched::Unreadable => Step::ReadNext,
            Fetched::End => if self.cycle {
                Step::Reopen
            } else {
                Step::Finish
            },
        }
    }
}

/// A sampler that takes one slice of `slice_size` symbols from each record,
/// endlessly if `cycle` is set.
pub fn get_fasta_iterator(slice_size: usize, cycle: bool) -> (sampler: FastaIterator)
    ensures
        sampler.slice_size() == slice_size,
        sampler.cycle() == cycle,
{
    FastaIterator { slice_size, cycle, rng: entropy_rng() }
}

/// A sampler that takes `n_samples` slices of `slice_size` symbols from each
/// record, endlessly if `cycle` is set.
pub fn get_fasta_reiterator(slice_size: usize, cycle: bool, n_samples: usize) -> (sampler:
    ReFastaIterator)
    ensures
        sampler.slice_size() == slice_size,
        sampler.cycle() == cycle,
        sampler.n_samples() == n_samples,
{
    ReFastaIterator { slice_size, cycle, n_samples, rng: entropy_rng() }
}

/// How many of the records, given by their lengths, are at least
/// `slice_size` long.
pub fn len_fasta_valid(lengths: &Vec<usize>, slice_size: usize) -> (count: usize)
    ensures
        count == count_matching(lengths@, is_counted(slice_size)),
{
    let mut count: usize = 0;
    let mut k: usize = 0;
    while k < lengths.len()
        invariant
            k <= lengths@.len(),
            count <= k,
            count == count_matching(lengths@.take(k as int), is_counted(slice_size)),
        decreases lengths@.len() - k,
    {
        proof {
            lemma_count_step(lengths@, is_counted(slice_size), k as int);
        }
        if lengths[k] >= slice_size {
            count += 1;
        }
        k += 1;
    }
    proof {
        assert(lengths@.take(k as int) =~= lengths@);
    }
    count
}

/// The count of valid records and the two samplers draw their lines one unit
/// apart: the one-slice sampler yields exactly the records that are counted,
/// the many-slice sampler yields them but for those exactly one slice long.
pub proof fn lemma_counted_and_yielded(len: int, slice_size: int)
    ensures
        counted_valid(len, slice_size) <==> FastaIterator::yields(len, slice_size),
        ReFastaIterator::yields(len, slice_size) <==> counted_valid(len, slice_size) && len
            != slice_size,
        len < slice_size ==> !counted_valid(len, slice_size) && !FastaIterator::yields(
            len,
            slice_size,
        ) && !ReFastaIterator::yields(len, slice_size),
{
}

/// A slice taken from a record holds exactly `size` encoded symbols.
pub proof fn lemma_slice_has_size(out: Seq<[u8; 4]>, symbols: Seq<u8>, size: int, bound: int)
    requires
        0 <= size,
        is_slice_of(out, symbols, size, bound),
    ensures
        out.len() == size,
{
}

} // verus!
