use lcf::{
    encode_slice, get_fasta_iterator, get_fasta_reiterator, len_fasta_valid, Fetched, Step,
};

fn record(seq: &[u8], desc: Option<&str>) -> Fetched {
    Fetched::Record { seq: seq.to_vec(), desc: desc.map(|d| d.to_string()) }
}

fn windows(seq: &[u8], size: usize, bound: usize) -> Vec<Vec<[u8; 4]>> {
    (0..bound).map(|start| encode_slice(&seq.to_vec(), start, size)).collect()
}

#[test]
fn valid_count_includes_records_of_exactly_slice_size() {
    assert_eq!(len_fasta_valid(&vec![3, 4, 5, 10], 4), 3);
    assert_eq!(len_fasta_valid(&vec![3, 2, 0], 4), 0);
    assert_eq!(len_fasta_valid(&Vec::new(), 4), 0);
    assert_eq!(len_fasta_valid(&vec![0, 1], 0), 2);
}

#[test]
fn sequential_constructor_keeps_its_arguments() {
    let sampler = get_fasta_iterator(7, true);
    assert_eq!(sampler.slice_size(), 7);
    assert!(sampler.cycle());
}

#[test]
fn sequential_record_of_slice_size_is_taken_whole() {
    let mut sampler = get_fasta_iterator(4, false);
    match sampler.step(record(b"ACGT", Some("first record"))) {
        Step::Yield((slice, desc)) => {
            assert_eq!(slice, vec![[1, 0, 0, 0], [0, 1, 0, 0], [0, 0, 1, 0], [0, 0, 0, 1]]);
            assert_eq!(desc, "first record");
        }
        _ => panic!("a record of slice size gives a slice"),
    }
}

#[test]
fn sequential_missing_description_is_empty() {
    let mut sampler = get_fasta_iterator(2, false);
    match sampler.step(record(b"AC", None)) {
        Step::Yield((_, desc)) => assert_eq!(desc, ""),
        _ => panic!("a record of slice size gives a slice"),
    }
}

#[test]
fn sequential_longer_record_gives_a_window() {
    let seq = b"ACGTTGCAAC";
    let mut sampler = get_fasta_iterator(4, false);
    for _ in 0..50 {
        match sampler.step(record(seq, Some("d"))) {
            Step::Yield((slice, desc)) => {
                assert_eq!(slice.len(), 4);
                assert!(windows(seq, 4, 6).contains(&slice));
                assert_eq!(desc, "d");
            }
            _ => panic!("a longer record gives a slice"),
        }
    }
}

#[test]
fn sequential_draw_stays_below_its_bound() {
    // One symbol longer than a slice: the only admitted start is 0.
    let mut sampler = get_fasta_iterator(4, false);
    for _ in 0..20 {
        match sampler.step(record(b"AAAAC", None)) {
            Step::Yield((slice, _)) => assert_eq!(slice, vec![[1, 0, 0, 0]; 4]),
            _ => panic!("a longer record gives a slice"),
        }
    }
}

#[test]
fn sequential_short_and_unreadable_records_are_passed_over() {
    let mut sampler = get_fasta_iterator(4, true);
    assert!(matches!(sampler.step(record(b"ACG", Some("short"))), Step::ReadNext));
    assert!(matches!(sampler.step(record(b"", None)), Step::ReadNext));
    assert!(matches!(sampler.step(Fetched::Unreadable), Step::ReadNext));
}

#[test]
fn sequential_end_of_store_restarts_only_when_cycling() {
    let mut cycling = get_fasta_iterator(4, true);
    for _ in 0..5 {
        assert!(matches!(cycling.step(Fetched::End), Step::Reopen));
    }
    let mut finite = get_fasta_iterator(4, false);
    assert!(matches!(finite.step(Fetched::End), Step::Finish));
}

#[test]
fn repeated_constructor_keeps_its_arguments() {
    let sampler = get_fasta_reiterator(4, false, 3);
    assert_eq!(sampler.slice_size(), 4);
    assert!(!sampler.cycle());
    assert_eq!(sampler.n_samples(), 3);
}

#[test]
fn repeated_one_record_gives_three_slices_then_ends() {
    let seq = b"ACGTTGCAAC";
    let mut sampler = get_fasta_reiterator(4, false, 3);
    match sampler.step(record(seq, None)) {
        Step::Yield(batch) => {
            assert_eq!(batch.len(), 3);
            for slice in &batch {
                assert_eq!(slice.len(), 4);
                assert!(windows(seq, 4, 6).contains(slice));
            }
        }
        _ => panic!("a longer record gives slices"),
    }
    assert!(matches!(sampler.step(Fetched::End), Step::Finish));
}

#[test]
fn repeated_draw_stays_below_its_bound() {
    let mut sampler = get_fasta_reiterator(4, false, 8);
    match sampler.step(record(b"CCCCA", None)) {
        Step::Yield(batch) => {
            assert_eq!(batch, vec![vec![[0, 1, 0, 0]; 4]; 8]);
        }
        _ => panic!("a longer record gives slices"),
    }
}

#[test]
fn repeated_record_of_slice_size_is_passed_over() {
    let mut sampler = get_fasta_reiterator(4, false, 3);
    assert!(matches!(sampler.step(record(b"ACGT", None)), Step::ReadNext));
    assert!(matches!(sampler.step(record(b"AC", None)), Step::ReadNext));
    assert!(matches!(sampler.step(Fetched::Unreadable), Step::ReadNext));
    // The count of valid records still includes the one of exactly slice size.
    assert_eq!(len_fasta_valid(&vec![4, 2], 4), 1);
}

#[test]
fn repeated_no_samples_gives_an_empty_batch() {
    let mut sampler = get_fasta_reiterator(4, false, 0);
    match sampler.step(record(b"ACGTA", None)) {
        Step::Yield(batch) => assert!(batch.is_empty()),
        _ => panic!("a longer record gives a batch"),
    }
}

#[test]
fn repeated_end_of_store_restarts_only_when_cycling() {
    let mut cycling = get_fasta_reiterator(4, true, 2);
    assert!(matches!(cycling.step(Fetched::End), Step::Reopen));
    assert!(matches!(cycling.step(Fetched::End), Step::Reopen));
    let mut finite = get_fasta_reiterator(4, false, 2);
    assert!(matches!(finite.step(Fetched::End), Step::Finish));
}
