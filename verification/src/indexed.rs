//! The indexed sampler: forward sampling record by record, and access by a
//! flat index, over a store whose record lengths are known up front.
//!
//! The sampler plans reads; the caller carries them out on the store and
//! encodes the symbols that come back.

use crate::draw::{draw_between_u64, entropy_rng};
use crate::tally::{count_matching, lemma_count_positive, lemma_count_step};
use rand::rngs::SmallRng;
use vstd::arithmetic::div_mod::lemma_basic_div;
use vstd::prelude::*;

verus! {

/// One read to carry out on the store: the symbols `start..stop` of record
/// `record`.
#[derive(Clone, Copy, Debug)]
pub struct SlicePlan {
    /// The ordinal of the record to read from.
    pub record: usize,
    /// The first symbol of the slice.
    pub start: u64,
    /// One past the last symbol of the slice.
    pub stop: u64,
    /// Whether the record has to be looked up in the index again, or is the
    /// one that the store is already positioned on.
    pub refetch: bool,
}

impl SlicePlan {
    /// The read of `slice_size` symbols of record `record` that starts at
    /// `start`.
    pub fn at(record: usize, start: u64, slice_size: u64, refetch: bool) -> (plan: SlicePlan)
        requires
            start + slice_size <= u64::MAX,
        ensures
            plan.record == record,
            plan.start == start,
            plan.stop == start + slice_size,
            plan.refetch == refetch,
    {
        SlicePlan { record, start, stop: start + slice_size, refetch }
    }
}

/// Why access by index failed.
#[derive(Clone, Copy, Debug, PartialEq, Eq)]
pub enum SampleError {
    /// The index lies outside the logical length.
    OutOfRange { index: usize },
    /// The record is too short to hold a slice at any admissible start.
    Malformed { record: usize },
}

/// The condition under which a record length counts towards the logical
/// length: strictly longer than a slice.
pub open spec fn is_eligible(slice_size: u64) -> spec_fn(u64) -> bool {
    |len: u64| len > slice_size
}

/// The number of eligible records.
pub open spec fn eligible_count(lengths: Seq<u64>, slice_size: u64) -> nat {
    count_matching(lengths, is_eligible(slice_size))
}

/// The first eligible record at or after `from`, if there is one.
pub open spec fn next_eligible(lengths: Seq<u64>, slice_size: u64, from: int) -> Option<int>
    decreases lengths.len() - from,
{
    if from < 0 || from >= lengths.len() {
        None
    } else if lengths[from] > slice_size {
        Some(from)
    } else {
        next_eligible(lengths, slice_size, from + 1)
    }
}

/// The record that forward sampling turns to with the cursor at `cursor`:
/// the first eligible one from the cursor on; failing that, with cycling, the
/// first eligible one of the store.
pub open spec fn forward_target(lengths: Seq<u64>, slice_size: u64, cursor: int, cycle: bool)
    -> Option<int> {
    match next_eligible(lengths, slice_size, cursor) {
        Some(r) => Some(r),
        None => if cycle {
            next_eligible(lengths, slice_size, 0)
        } else {
            None
        },
    }
}

/// One past the last start admitted in a record of length `len`.
pub open spec fn start_bound(len: u64, slice_size: u64) -> int {
    len - slice_size - 1
}

/// `plan` reads `slice_size` symbols of record `record`, from an admitted
/// start.
pub open spec fn plans_slice(plan: SlicePlan, record: int, len: u64, slice_size: u64) -> bool {
    &&& plan.record == record
    &&& 0 <= plan.start < start_bound(len, slice_size)
    &&& plan.stop == plan.start + slice_size
}

/// Counts the eligible records.
pub fn count_eligible(lengths: &Vec<u64>, slice_size: u64) -> (count: usize)
    ensures
        count == eligible_count(lengths@, slice_size),
{
    let mut count: usize = 0;
    let mut k: usize = 0;
    while k < lengths.len()
        invariant
            k <= lengths@.len(),
            count <= k,
            count == count_matching(lengths@.take(k as int), is_eligible(slice_size)),
        decreases lengths@.len() - k,
    {
        proof {
            lemma_count_step(lengths@, is_eligible(slice_size), k as int);
        }
        if lengths[k] > slice_size {
            count += 1;
        }
        k += 1;
    }
    proof {
        assert(lengths@.take(k as int) =~= lengths@);
    }
    count
}

/// Finds the first eligible record at or after `from`.
pub fn first_eligible_from(lengths: &Vec<u64>, slice_size: u64, from: usize) -> (out: Option<usize>)
    ensures
        match next_eligible(lengths@, slice_size, from as int) {
            Some(r) => {
                &&& from <= r < lengths@.len()
                &&& out matches Some(t) && t == r
            },
            None => out is None,
        },
{
    let mut k: usize = from;
    while k < lengths.len()
        invariant
            from <= k,
            next_eligible(lengths@, slice_size, k as int) == next_eligible(
                lengths@,
                slice_size,
                from as int,
            ),
        decreases lengths@.len() - k,
    {
        if lengths[k] > slice_size {
            return Some(k);
        }
        k += 1;
    }
    None
}

/// Samples `n_samples` slices from each eligible record going forward, and
/// one slice at a time by flat index.
pub struct IndexFastaIterator {
    lengths: Vec<u64>,
    rng: SmallRng,
    slice_size: u64,
    n_samples: usize,
    cycle: bool,
    i: usize,
    len: Option<usize>,
}

impl IndexFastaIterator {
    /// The length of each record of the store, in index order.
    pub closed spec fn lengths(&self) -> Seq<u64> {
        self.lengths@
    }

    /// The length of each slice.
    pub closed spec fn spec_slice_size(&self) -> u64 {
        self.slice_size
    }

    /// How many slices each record gives going forward.
    pub closed spec fn spec_n_samples(&self) -> usize {
        self.n_samples
    }

    /// Whether forward sampling starts over at the end of the store.
    pub closed spec fn spec_cycle(&self) -> bool {
        self.cycle
    }

    /// The record that forward sampling visits next.
    pub closed spec fn spec_cursor(&self) -> usize {
        self.i
    }

    /// The logical length: one slot per eligible record and sample.
    pub open spec fn logical_len(&self) -> nat {
        eligible_count(self.lengths(), self.slice_size()) * (self.n_samples() as nat)
    }

    /// The record that the next `advance` samples, if any.
    pub open spec fn advance_target(&self) -> Option<int> {
        forward_target(self.lengths(), self.slice_size(), self.cursor() as int, self.cycle())
    }

    /// The cursor lies within the store, the logical length fits the machine,
    /// and the remembered length, once there, is the logical length.
    pub closed spec fn wf(&self) -> bool {
        &&& self.i <= self.lengths@.len()
        &&& self.logical_len() <= usize::MAX
        &&& self.len matches Some(n) ==> n == self.logical_len()
    }

    /// The length of each slice.
    #[verifier::when_used_as_spec(spec_slice_size)]
    pub fn slice_size(&self) -> (size: u64)
        ensures
            size == self.spec_slice_size(),
    {
        self.slice_size
    }

    /// How many slices each record gives going forward.
    #[verifier::when_used_as_spec(spec_n_samples)]
    pub fn n_samples(&self) -> (n: usize)
        ensures
            n == self.spec_n_samples(),
    {
        self.n_samples
    }

    /// Whether forward sampling starts over at the end of the store.
    #[verifier::when_used_as_spec(spec_cycle)]
    pub fn cycle(&self) -> (cycle: bool)
        ensures
            cycle == self.spec_cycle(),
    {
        self.cycle
    }

    /// The record that forward sampling visits next.
    #[verifier::when_used_as_spec(spec_cursor)]
    pub fn cursor(&self) -> (cursor: usize)
        ensures
            cursor == self.spec_cursor(),
    {
        self.i
    }

    /// A sampler over the records of the given lengths, with its cursor at
    /// the first record and its logical length already computed.
    pub fn new(lengths: Vec<u64>, slice_size: u64, n_samples: usize, cycle: bool) -> (sampler: Self)
        requires
            eligible_count(lengths@, slice_size) * n_samples <= usize::MAX,
        ensures
            sampler.wf(),
            sampler.lengths() == lengths@,
            sampler.slice_size() == slice_size,
            sampler.n_samples() == n_samples,
            sampler.cycle() == cycle,
            sampler.cursor() == 0,
    {
        let mut sampler = IndexFastaIterator {
            lengths,
            rng: entropy_rng(),
            slice_size,
            n_samples,
            cycle,
            i: 0,
            len: None,
        };
        sampler.records_len();
        sampler
    }

    /// The logical length, computed by one pass over the record lengths on
    /// the first call and remembered from then on.
    pub fn records_len(&mut self) -> (total: usize)
        requires
            old(self).wf(),
        ensures
            total == old(self).logical_len(),
            final(self).wf(),
            final(self).lengths() == old(self).lengths(),
            final(self).slice_size() == old(self).slice_size(),
            final(self).n_samples() == old(self).n_samples(),
            final(self).cycle() == old(self).cycle(),
            final(self).cursor() == old(self).cursor(),
            final(self).logical_len() == old(self).logical_len(),
    {
        match self.len {
            Some(total) => total,
            None => {
                let count: usize = count_eligible(&self.lengths, self.slice_size);
                let total: usize = count * self.n_samples;
                self.len = Some(total);
                total
            },
        }
    }

    /// The logical length.
    pub fn len(&self) -> (total: usize)
        requires
            self.wf(),
        ensures
            total == self.logical_len(),
    {
        match self.len {
            Some(total) => total,
            None => {
                let count: usize = count_eligible(&self.lengths, self.slice_size);
                count * self.n_samples
            },
        }
    }

    /// Whether the record that the next `advance` samples admits a start: its
    /// length is not `slice_size + 1`.
    pub open spec fn admits_advance(&self) -> bool {
        forall|r: int|
            0 <= r < self.lengths().len() && self.advance_target() == Some(r) ==> start_bound(
                #[trigger] self.lengths()[r],
                self.slice_size(),
            ) > 0
    }

    /// The record that the next `advance` samples, if any.
    pub fn next_target(&self) -> (target: Option<usize>)
        requires
            self.wf(),
        ensures
            match self.advance_target() {
                Some(r) => {
                    &&& 0 <= r < self.lengths().len()
                    &&& self.lengths()[r] > self.slice_size()
                    &&& target matches Some(t) && t == r
                },
                None => target is None,
            },
    {
        proof {
            lemma_next_eligible_is_least(self.lengths@, self.slice_size, self.i as int);
            lemma_next_eligible_is_least(self.lengths@, self.slice_size, 0);
        }
        match first_eligible_from(&self.lengths, self.slice_size, self.i) {
            Some(r) => Some(r),
            None => if self.cycle {
                first_eligible_from(&self.lengths, self.slice_size, 0)
            } else {
                None
            },
        }
    }

    /// Whether `advance` may be called: see `admits_advance`.
    pub fn can_advance(&self) -> (ok: bool)
        requires
            self.wf(),
        ensures
            ok == self.admits_advance(),
    {
        match self.next_target() {
            Some(r) => {
                let ok: bool = self.lengths[r] - self.slice_size > 1;
                assert(ok == (start_bound(self.lengths()[r as int], self.slice_size()) > 0));
                ok
            },
            None => true,
        }
    }

    /// Moves to the next eligible record and plans `n_samples` reads in it,
    /// each from a start of its own; only the first of them looks the record
    /// up. Records no longer than a slice are passed over. At the end of the
    /// store a cycling sampler starts over; the sequence ends where no eligible
    /// record is left to turn to.
    pub fn advance(&mut self) -> (out: Option<Vec<SlicePlan>>)
        requires
            old(self).wf(),
            old(self).admits_advance(),
        ensures
            final(self).wf(),
            final(self).lengths() == old(self).lengths(),
            final(self).slice_size() == old(self).slice_size(),
            final(self).n_samples() == old(self).n_samples(),
            final(self).cycle() == old(self).cycle(),
            final(self).logical_len() == old(self).logical_len(),
            match old(self).advance_target() {
                Some(r) => {
                    &&& 0 <= r < old(self).lengths().len()
                    &&& final(self).cursor() == r + 1
                    &&& out matches Some(batch) && batch@.len() == old(self).n_samples()
                        && forall|j: int|
                        0 <= j < batch@.len() ==> plans_slice(
                            #[trigger] batch@[j],
                            r,
                            old(self).lengths()[r],
                            old(self).slice_size(),
                        ) && batch@[j].refetch == (j == 0)
                },
                None => out is None && final(self).cursor() == old(self).lengths().len(),
            },
    {
        let count: usize = self.lengths.len();
        let record: usize = match self.next_target() {
            Some(r) => r,
            None => {
                self.i = count;
                return None;
            },
        };
        let length: u64 = self.lengths[record];
        assert(start_bound(old(self).lengths()[record as int], self.slice_size) > 0);
        let bound: u64 = length - self.slice_size - 1;
        self.i = record + 1;
        let mut batch: Vec<SlicePlan> = Vec::new();
        let mut j: usize = 0;
        while j < self.n_samples
            invariant
                self.wf(),
                self.lengths() == old(self).lengths(),
                self.slice_size() == old(self).slice_size(),
                self.n_samples() == old(self).n_samples(),
                self.cycle() == old(self).cycle(),
                self.i == record + 1,
                record < self.lengths@.len(),
                length == self.lengths@[record as int],
                0 < bound == start_bound(length, self.slice_size),
                j <= self.n_samples,
                batch@.len() == j,
                forall|k: int|
                    0 <= k < j ==> plans_slice(
                        #[trigger] batch@[k],
                        record as int,
                        length,
                        self.slice_size,
                    ) && batch@[k].refetch == (k == 0),
            decreases self.n_samples - j,
        {
            let start: u64 = draw_between_u64(&mut self.rng, 0, bound);
            batch.push(SlicePlan::at(record, start, self.slice_size, j == 0));
            j += 1;
        }
        Some(batch)
    }

    /// Plans the read for flat index `i`. The record is `i` divided by the
    /// logical length; the read starts at a drawn offset in that record.
    /// `last_read_failed` says whether the store's latest read failed. The
    /// record is looked up afresh, and the cursor set back to the first
    /// record, where the cursor is not on that record or that read failed.
    pub fn get(&mut self, i: usize, last_read_failed: bool) -> (out: Result<SlicePlan, SampleError>)
        requires
            old(self).wf(),
        ensures
            final(self).wf(),
            final(self).lengths() == old(self).lengths(),
            final(self).slice_size() == old(self).slice_size(),
            final(self).n_samples() == old(self).n_samples(),
            final(self).cycle() == old(self).cycle(),
            final(self).logical_len() == old(self).logical_len(),
            i >= old(self).logical_len() ==> out == Err::<SlicePlan, SampleError>(
                SampleError::OutOfRange { index: i },
            ) && final(self).cursor() == old(self).cursor(),
            i < old(self).logical_len() ==> {
                let record = i as int / old(self).logical_len() as int;
                &&& 0 <= record < old(self).lengths().len()
                &&& final(self).cursor() == 0
                &&& start_bound(old(self).lengths()[record], old(self).slice_size()) <= 0 ==> out
                    == Err::<SlicePlan, SampleError>(
                    SampleError::Malformed { record: record as usize },
                )
                &&& start_bound(old(self).lengths()[record], old(self).slice_size()) > 0 ==> (out
                    matches Ok(plan) && plans_slice(
                    plan,
                    record,
                    old(self).lengths()[record],
                    old(self).slice_size(),
                ) && plan.refetch == (old(self).cursor() != record || last_read_failed))
            },
    {
        let total: usize = self.len();
        if i >= total {
            return Err(SampleError::OutOfRange { index: i });
        }
        let record: usize = i / total;
        proof {
            lemma_basic_div(i as int, total as int);
            lemma_count_positive(self.lengths@, is_eligible(self.slice_size));
            assert(eligible_count(self.lengths@, self.slice_size) > 0) by (nonlinear_arith)
                requires
                    eligible_count(self.lengths@, self.slice_size) * self.n_samples > 0,
            ;
        }
        let refetch: bool = self.i != record || last_read_failed;
        if refetch {
            self.i = 0;
        }
        let length: u64 = self.lengths[record];
        if length <= self.slice_size || length - self.slice_size <= 1 {
            return Err(SampleError::Malformed { record });
        }
        let start: u64 = draw_between_u64(&mut self.rng, 0, length - self.slice_size - 1);
        Ok(SlicePlan::at(record, start, self.slice_size, refetch))
    }
}

/// An indexed sampler over the records of the given lengths, or `None` where
/// the logical length would not fit the machine's word.
pub fn get_fasta_indexed(lengths: Vec<u64>, slice_size: u64, n_samples: usize, cycle: bool) -> (out:
    Option<IndexFastaIterator>)
    ensures
        out is Some <==> eligible_count(lengths@, slice_size) * n_samples <= usize::MAX,
        out matches Some(sampler) ==> sampler.wf() && sampler.lengths() == lengths@
            && sampler.slice_size() == slice_size && sampler.n_samples() == n_samples
            && sampler.cycle() == cycle && sampler.cursor() == 0,
{
    let count: usize = count_eligible(&lengths, slice_size);
    match count.checked_mul(n_samples) {
        Some(_) => Some(IndexFastaIterator::new(lengths, slice_size, n_samples, cycle)),
        None => None,
    }
}

/// `next_eligible` gives the least eligible record from `from` on, and none
/// exactly where every record from there on is no longer than a slice.
pub proof fn lemma_next_eligible_is_least(lengths: Seq<u64>, slice_size: u64, from: int)
    requires
        0 <= from,
    ensures
        match next_eligible(lengths, slice_size, from) {
            Some(r) => from <= r < lengths.len() && lengths[r] > slice_size && forall|k: int|
                from <= k < r ==> #[trigger] lengths[k] <= slice_size,
            None => forall|k: int| from <= k < lengths.len() ==> #[trigger] lengths[k] <= slice_size,
        },
    decreases lengths.len() - from,
{
    if from < lengths.len() && lengths[from] <= slice_size {
        lemma_next_eligible_is_least(lengths, slice_size, from + 1);
    }
}

/// With cycling, forward sampling over a store that holds an eligible record
/// always finds a record to sample, wherever the cursor stands.
pub proof fn lemma_cycling_never_ends(lengths: Seq<u64>, slice_size: u64, cursor: int)
    requires
        0 <= cursor,
        eligible_count(lengths, slice_size) > 0,
    ensures
        forward_target(lengths, slice_size, cursor, true) is Some,
{
    lemma_count_positive(lengths, is_eligible(slice_size));
    let k: int = choose|k: int|
        0 <= k < lengths.len() && is_eligible(slice_size)(#[trigger] lengths[k]);
    assert(lengths[k] > slice_size);
    lemma_next_eligible_is_least(lengths, slice_size, cursor);
    lemma_next_eligible_is_least(lengths, slice_size, 0);
}

/// Without cycling, forward sampling ends exactly where no eligible record
/// is left from the cursor on.
pub proof fn lemma_without_cycling_ends_when_exhausted(
    lengths: Seq<u64>,
    slice_size: u64,
    cursor: int,
)
    requires
        0 <= cursor,
    ensures
        forward_target(lengths, slice_size, cursor, false) is None <==> forall|k: int|
            cursor <= k < lengths.len() ==> #[trigger] lengths[k] <= slice_size,
{
    lemma_next_eligible_is_least(lengths, slice_size, cursor);
}

/// Every flat index below the logical length falls on the first record: the
/// index is divided by the whole logical length, not by the samples per
/// record.
pub proof fn lemma_flat_index_falls_on_first_record(i: int, logical_len: int)
    requires
        0 <= i < logical_len,
    ensures
        i / logical_len == 0,
{
    lemma_basic_div(i, logical_len);
}

/// A planned read spans exactly one slice and ends before the record's last
/// symbol.
pub proof fn lemma_plan_spans_one_slice(plan: SlicePlan, record: int, len: u64, slice_size: u64)
    requires
        plans_slice(plan, record, len, slice_size),
    ensures
        plan.stop - plan.start == slice_size,
        plan.stop < len - 1,
{
}

} // verus!
