use lcf::{get_fasta_indexed, IndexFastaIterator, SampleError, SlicePlan};

fn sampler(lengths: &[u64], slice_size: u64, n_samples: usize, cycle: bool) -> IndexFastaIterator {
    get_fasta_indexed(lengths.to_vec(), slice_size, n_samples, cycle).unwrap()
}

#[test]
fn one_record_gives_three_plans_then_ends() {
    let mut s = sampler(&[10], 4, 3, false);
    assert!(s.can_advance());
    let batch = s.advance().unwrap();
    assert_eq!(batch.len(), 3);
    for (j, plan) in batch.iter().enumerate() {
        assert_eq!(plan.record, 0);
        assert!(plan.start < 5);
        assert_eq!(plan.stop - plan.start, 4);
        assert_eq!(plan.refetch, j == 0);
    }
    assert!(s.can_advance());
    assert!(s.advance().is_none());
    assert!(s.advance().is_none());
}

#[test]
fn logical_length_counts_eligible_records_times_samples() {
    assert_eq!(sampler(&[10, 12], 4, 5, false).len(), 10);
    assert_eq!(sampler(&[3, 10, 4, 20, 5], 4, 3, false).len(), 9);
    assert_eq!(sampler(&[4, 4], 4, 3, false).len(), 0);
    assert_eq!(sampler(&[], 4, 3, false).len(), 0);
    assert_eq!(sampler(&[10, 12], 4, 0, false).len(), 0);
}

#[test]
fn flat_indices_fall_on_the_first_record() {
    let mut s = sampler(&[10, 12], 4, 5, false);
    assert_eq!(s.len(), 10);
    for i in [0usize, 9, 4, 5] {
        let plan = s.get(i, false).unwrap();
        assert_eq!(plan.record, 0);
        assert!(plan.start < 5);
        assert_eq!(plan.stop, plan.start + 4);
    }
}

#[test]
fn index_outside_the_logical_length_is_an_error() {
    let mut s = sampler(&[10, 12], 4, 5, false);
    assert_eq!(s.get(10, false).unwrap_err(), SampleError::OutOfRange { index: 10 });
    assert_eq!(s.get(usize::MAX, true).unwrap_err(), SampleError::OutOfRange { index: usize::MAX });
    assert_eq!(s.cursor(), 0);
    let mut empty = sampler(&[4, 2], 4, 5, false);
    assert_eq!(empty.get(0, false).unwrap_err(), SampleError::OutOfRange { index: 0 });
}

#[test]
fn record_without_an_admitted_start_is_malformed() {
    let mut s = sampler(&[5, 20], 4, 2, false);
    assert_eq!(s.len(), 4);
    assert_eq!(s.get(0, false).unwrap_err(), SampleError::Malformed { record: 0 });
    let mut t = sampler(&[3, 20], 4, 2, false);
    assert_eq!(t.len(), 2);
    assert_eq!(t.get(1, false).unwrap_err(), SampleError::Malformed { record: 0 });
}

#[test]
fn logical_length_is_stable() {
    let mut s = sampler(&[10, 3, 12], 4, 5, true);
    let before = s.len();
    assert_eq!(before, 10);
    assert_eq!(s.records_len(), 10);
    for _ in 0..7 {
        s.advance().unwrap();
        assert_eq!(s.len(), before);
    }
    s.get(3, false).unwrap();
    assert!(s.get(10, false).is_err());
    assert_eq!(s.len(), before);
    assert_eq!(s.records_len(), before);
}

#[test]
fn cycling_over_two_records_never_ends() {
    let mut s = sampler(&[10, 12], 4, 2, true);
    for round in 0..9 {
        assert!(s.can_advance());
        let batch = s.advance().unwrap();
        assert_eq!(batch.len(), 2);
        for plan in &batch {
            assert_eq!(plan.record, round % 2);
            let bound = if round % 2 == 0 { 5 } else { 7 };
            assert!(plan.start < bound);
            assert_eq!(plan.stop, plan.start + 4);
        }
    }
}

#[test]
fn without_cycling_the_sequence_ends_with_the_store() {
    let mut s = sampler(&[10, 12], 4, 2, false);
    assert_eq!(s.advance().unwrap()[0].record, 0);
    assert_eq!(s.advance().unwrap()[0].record, 1);
    assert!(s.advance().is_none());
    assert_eq!(s.cursor(), 2);
}

#[test]
fn short_records_are_passed_over() {
    let mut s = sampler(&[3, 10, 4, 20], 4, 1, false);
    assert_eq!(s.next_target(), Some(1));
    assert_eq!(s.advance().unwrap()[0].record, 1);
    assert_eq!(s.cursor(), 2);
    assert_eq!(s.next_target(), Some(3));
    assert_eq!(s.advance().unwrap()[0].record, 3);
    assert_eq!(s.next_target(), None);
    assert!(s.advance().is_none());
}

#[test]
fn cycling_without_eligible_records_ends() {
    let mut s = sampler(&[3, 4], 4, 2, true);
    assert!(s.advance().is_none());
    let mut e = sampler(&[], 4, 2, true);
    assert!(e.advance().is_none());
}

#[test]
fn record_one_longer_than_a_slice_cannot_be_advanced_to() {
    let s = sampler(&[5, 20], 4, 2, false);
    assert!(!s.can_advance());
    let mut t = sampler(&[20, 5], 4, 2, false);
    assert!(t.can_advance());
    t.advance().unwrap();
    assert!(!t.can_advance());
}

#[test]
fn drawn_start_stays_below_its_bound() {
    // Two symbols longer than a slice: the only admitted start is 0.
    let mut s = sampler(&[6], 4, 16, true);
    for plan in s.advance().unwrap() {
        assert_eq!((plan.start, plan.stop), (0, 4));
    }
    for i in 0..16 {
        let plan = s.get(i, false).unwrap();
        assert_eq!((plan.record, plan.start, plan.stop), (0, 0, 4));
    }
}

#[test]
fn access_by_index_sets_the_cursor_back() {
    let mut s = sampler(&[10, 12], 4, 2, false);
    // Nothing read yet: the store's latest read cannot have succeeded.
    assert!(s.get(0, true).unwrap().refetch);
    // The cursor is on the first record and the latest read went well.
    assert!(!s.get(1, false).unwrap().refetch);
    s.advance().unwrap();
    s.advance().unwrap();
    assert_eq!(s.cursor(), 2);
    assert!(s.get(0, false).unwrap().refetch);
    assert_eq!(s.cursor(), 0);
    assert_eq!(s.advance().unwrap()[0].record, 0);
}

#[test]
fn constructor_keeps_its_arguments() {
    let s = IndexFastaIterator::new(vec![10, 12], 4, 5, true);
    assert_eq!(s.slice_size(), 4);
    assert_eq!(s.n_samples(), 5);
    assert!(s.cycle());
    assert_eq!(s.cursor(), 0);
    assert_eq!(s.len(), 10);
}

#[test]
fn logical_length_that_does_not_fit_is_refused() {
    assert!(get_fasta_indexed(vec![10, 12], 4, usize::MAX, false).is_none());
    assert!(get_fasta_indexed(vec![10], 4, usize::MAX, false).is_some());
    assert!(get_fasta_indexed(vec![1, 2], 4, usize::MAX, false).is_some());
}

#[test]
fn plan_spans_one_slice_from_its_start() {
    let plan = SlicePlan::at(3, 17, 4, true);
    assert_eq!((plan.record, plan.start, plan.stop, plan.refetch), (3, 17, 21, true));
    let empty = SlicePlan::at(0, 5, 0, false);
    assert_eq!((empty.record, empty.start, empty.stop, empty.refetch), (0, 5, 5, false));
}

#[test]
fn drawn_starts_leave_the_last_symbol_out() {
    // Length 7 and slices of 4: starts 0 and 1 are admitted, 2 and 3 are not.
    let mut s = sampler(&[7], 4, 64, true);
    for _ in 0..4 {
        for plan in s.advance().unwrap() {
            assert!(plan.start < 2);
            assert_eq!(plan.stop, plan.start + 4);
        }
    }
    for i in 0..64 {
        assert!(s.get(i, false).unwrap().start < 2);
    }
}
