//! FNV-1a hashing, used to turn identifiers into a seed.
use vstd::prelude::*;

verus! {

/// The FNV-1a 64-bit offset basis: the hash of the empty input.
pub const FNV_OFFSET_BASIS: u64 = 14695981039346656037;

/// The FNV-1a 64-bit prime.
pub const FNV_PRIME: u64 = 1099511628211;

/// One FNV-1a step: XOR the byte into the low bits, then multiply by the
/// prime, keeping the low 64 bits.
pub open spec fn fnv1a_step(acc: u64, byte: u8) -> u64 {
    (((acc ^ (byte as u64)) as int * FNV_PRIME as int) % 0x1_0000_0000_0000_0000) as u64
}

/// The accumulator reached from `acc` after folding `bytes` in order.
pub open spec fn fnv1a_fold(acc: u64, bytes: Seq<u8>) -> u64
    decreases bytes.len(),
{
    if bytes.len() == 0 {
        acc
    } else {
        fnv1a_step(fnv1a_fold(acc, bytes.drop_last()), bytes.last())
    }
}

/// The FNV-1a 64-bit hash of `bytes`.
pub open spec fn fnv1a(bytes: Seq<u8>) -> u64 {
    fnv1a_fold(FNV_OFFSET_BASIS, bytes)
}

/// Implements FNV-1a hashing (not cryptographically secure)
#[derive(Debug, Clone, Copy, PartialEq, Eq)]
pub struct FnvHasher(pub u64);

impl Default for FnvHasher {
    fn default() -> (hasher: Self)
        ensures
            hasher.0 == FNV_OFFSET_BASIS,
    {
        FnvHasher(FNV_OFFSET_BASIS)
    }
}

impl FnvHasher {
    /// A hasher that has seen no input.
    pub fn new() -> (hasher: Self)
        ensures
            hasher.0 == FNV_OFFSET_BASIS,
            hasher.0 == fnv1a(Seq::<u8>::empty()),
    {
        FnvHasher(FNV_OFFSET_BASIS)
    }

    /// Folds `input` into the accumulator, byte by byte, in order.
    pub fn update(&mut self, input: &[u8])
        ensures
            final(self).0 == fnv1a_fold(old(self).0, input@),
    {
        let mut i: usize = 0;
        while i < input.len()
            invariant
                i <= input.len(),
                self.0 == fnv1a_fold(old(self).0, input@.take(i as int)),
            decreases input.len() - i,
        {
            proof {
                assert(input@.take(i + 1).drop_last() =~= input@.take(i as int));
            }
            self.0 = (self.0 ^ (input[i] as u64)).wrapping_mul(FNV_PRIME);
            i += 1;
        }
        proof {
            assert(input@.take(i as int) =~= input@);
        }
    }

    /// The accumulator as it stands; the hasher may be fed further.
    pub fn output(self) -> (hash: u64)
        ensures
            hash == self.0,
    {
        self.0
    }
}

/// Hashing nothing leaves the accumulator as it is, so the hash of the
/// empty input is the offset basis.
pub proof fn lemma_fnv1a_of_nothing(acc: u64)
    ensures
        fnv1a_fold(acc, Seq::empty()) == acc,
        fnv1a(Seq::empty()) == FNV_OFFSET_BASIS,
{
}

/// Feeding `first` and then `second` is feeding the two in one piece: the
/// hash depends on the bytes and their order, not on how they are cut.
pub proof fn lemma_fnv1a_fold_concat(acc: u64, first: Seq<u8>, second: Seq<u8>)
    ensures
        fnv1a_fold(fnv1a_fold(acc, first), second) == fnv1a_fold(acc, first + second),
    decreases second.len(),
{
    if second.len() == 0 {
        assert(first + second =~= first);
    } else {
        lemma_fnv1a_fold_concat(acc, first, second.drop_last());
        assert((first + second).drop_last() =~= first + second.drop_last());
    }
}

} // verus!
