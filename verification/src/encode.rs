//! One-hot encoding of nucleotide symbols.

use vstd::prelude::*;

verus! {

/// The position that a symbol lights up: `A`, `C`, `G` and `T` (upper-case
/// ASCII) take positions 0 to 3, every other symbol takes none.
pub open spec fn lane(base: u8) -> Option<int> {
    if base == 65 {
        Some(0int)
    } else if base == 67 {
        Some(1int)
    } else if base == 71 {
        Some(2int)
    } else if base == 84 {
        Some(3int)
    } else {
        None
    }
}

/// The encoding of one symbol: four entries, a 1 at the symbol's lane and 0
/// elsewhere; all 0 for a symbol without a lane.
pub open spec fn one_hot(base: u8) -> Seq<u8> {
    Seq::new(
        4,
        |k: int|
            if lane(base) == Some(k) {
                1u8
            } else {
                0u8
            },
    )
}

/// The sum of the entry-wise products of two four-entry vectors.
pub open spec fn dot(a: Seq<u8>, b: Seq<u8>) -> int {
    a[0] * b[0] + a[1] * b[1] + a[2] * b[2] + a[3] * b[3]
}

/// `out` is the entry-by-entry encoding of `symbols`.
pub open spec fn encodes(out: Seq<[u8; 4]>, symbols: Seq<u8>) -> bool {
    &&& out.len() == symbols.len()
    &&& forall|k: int| 0 <= k < out.len() ==> (#[trigger] out[k])@ == one_hot(symbols[k])
}

/// Encodes one symbol.
pub fn encode_base(base: u8) -> (v: [u8; 4])
    ensures
        v@ == one_hot(base),
{
    let v: [u8; 4] = if base == 65 {
        [1, 0, 0, 0]
    } else if base == 67 {
        [0, 1, 0, 0]
    } else if base == 71 {
        [0, 0, 1, 0]
    } else if base == 84 {
        [0, 0, 0, 1]
    } else {
        [0, 0, 0, 0]
    };
    assert(v@ =~= one_hot(base));
    v
}

/// Encodes the `size` symbols of `seq` that start at `start`.
pub fn encode_slice(seq: &Vec<u8>, start: usize, size: usize) -> (out: Vec<[u8; 4]>)
    requires
        start + size <= seq@.len(),
    ensures
        encodes(out@, seq@.subrange(start as int, start + size)),
{
    let total: usize = seq.len();
    let mut out: Vec<[u8; 4]> = Vec::new();
    let mut k: usize = 0;
    while k < size
        invariant
            start + size <= seq@.len(),
            seq@.len() == total,
            k <= size,
            out@.len() == k,
            forall|j: int| 0 <= j < k ==> (#[trigger] out@[j])@ == one_hot(seq@[start + j]),
        decreases size - k,
    {
        out.push(encode_base(seq[start + k]));
        k += 1;
    }
    out
}

/// Encodes every symbol of `seq`.
pub fn encode_bases(seq: &Vec<u8>) -> (out: Vec<[u8; 4]>)
    ensures
        encodes(out@, seq@),
{
    let out = encode_slice(seq, 0, seq.len());
    assert(seq@.subrange(0, seq@.len() as int) =~= seq@);
    out
}

/// The encoding of one read of the store: that of the symbol, or the zero
/// vector where the read gave none.
pub open spec fn one_hot_read(read: Option<u8>) -> Seq<u8> {
    match read {
        Some(base) => one_hot(base),
        None => seq![0u8, 0u8, 0u8, 0u8],
    }
}

/// Encodes what the store gave for one slice, read by read; a failed read
/// encodes to the zero vector.
pub fn get_interval(reads: &Vec<Option<u8>>) -> (out: Vec<[u8; 4]>)
    ensures
        out@.len() == reads@.len(),
        forall|k: int| 0 <= k < out@.len() ==> (#[trigger] out@[k])@ == one_hot_read(reads@[k]),
{
    let mut out: Vec<[u8; 4]> = Vec::new();
    let mut k: usize = 0;
    while k < reads.len()
        invariant
            k <= reads@.len(),
            out@.len() == k,
            forall|j: int| 0 <= j < k ==> (#[trigger] out@[j])@ == one_hot_read(reads@[j]),
        decreases reads@.len() - k,
    {
        let v: [u8; 4] = match reads[k] {
            Some(base) => encode_base(base),
            None => {
                let zero: [u8; 4] = [0, 0, 0, 0];
                assert(zero@ =~= seq![0u8, 0u8, 0u8, 0u8]);
                zero
            },
        };
        out.push(v);
        k += 1;
    }
    out
}

/// A symbol other than upper-case `A`, `C`, `G`, `T` encodes to the zero
/// vector.
pub proof fn lemma_unknown_is_zero(base: u8)
    requires
        base != 65,
        base != 67,
        base != 71,
        base != 84,
    ensures
        one_hot(base) == seq![0u8, 0u8, 0u8, 0u8],
{
    assert(one_hot(base) =~= seq![0u8, 0u8, 0u8, 0u8]);
}

/// Each of `A`, `C`, `G`, `T` encodes to a vector with a single 1, at a
/// position of its own.
pub proof fn lemma_known_is_one_hot(base: u8)
    requires
        base == 65 || base == 67 || base == 71 || base == 84,
    ensures
        lane(base) is Some,
        0 <= lane(base).unwrap() < 4,
        forall|k: int|
            0 <= k < 4 ==> #[trigger] one_hot(base)[k] == (if k == lane(base).unwrap() {
                1u8
            } else {
                0u8
            }),
        dot(one_hot(base), one_hot(base)) == 1,
{
    lemma_dot_of_bits(one_hot(base), one_hot(base));
}

/// Two different symbols among `A`, `C`, `G`, `T` encode to different,
/// orthogonal vectors.
pub proof fn lemma_distinct_are_orthogonal(a: u8, b: u8)
    requires
        a == 65 || a == 67 || a == 71 || a == 84,
        b == 65 || b == 67 || b == 71 || b == 84,
        a != b,
    ensures
        one_hot(a) != one_hot(b),
        dot(one_hot(a), one_hot(b)) == 0,
{
    let k: int = lane(a).unwrap();
    assert(one_hot(a)[k] == 1u8);
    assert(one_hot(b)[k] == 0u8);
    lemma_dot_of_bits(one_hot(a), one_hot(b));
}

/// On vectors of zeros and ones the dot product counts the positions at which
/// both hold a 1.
proof fn lemma_dot_of_bits(a: Seq<u8>, b: Seq<u8>)
    requires
        a.len() == 4,
        b.len() == 4,
        forall|k: int| 0 <= k < 4 ==> a[k] <= 1 && b[k] <= 1,
    ensures
        dot(a, b) == both(a, b, 0) + both(a, b, 1) + both(a, b, 2) + both(a, b, 3),
{
    assert(forall|x: int, y: int| 0 <= x <= 1 && 0 <= y <= 1 ==> #[trigger] (x * y) == (if x == 1
        && y == 1 {
        1int
    } else {
        0int
    })) by (nonlinear_arith);
}

/// 1 where both vectors hold a 1 at position `k`, else 0.
spec fn both(a: Seq<u8>, b: Seq<u8>, k: int) -> int {
    if a[k] == 1 && b[k] == 1 {
        1
    } else {
        0
    }
}

} // verus!
