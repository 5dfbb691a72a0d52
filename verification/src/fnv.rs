use vstd::prelude::*;

verus! {

/// The FNV-1a offset basis (32-bit).
pub const FNV_OFFSET: u32 = 0x811c9dc5;

/// The FNV-1a prime (32-bit).
pub const FNV_PRIME: u32 = 16777619;

/// 32-bit FNV-1a of a byte sequence: for each byte, xor it into the hash,
/// then multiply by the prime modulo 2^32.
pub open spec fn spec_fnv1a(s: Seq<u8>) -> u32
    decreases s.len(),
{
    if s.len() == 0 {
        FNV_OFFSET
    } else {
        (spec_fnv1a(s.drop_last()) ^ (s.last() as u32)).wrapping_mul(FNV_PRIME)
    }
}

/// The 32-bit FNV-1a hash that VMess uses as its checksum.
pub fn fnv1a(x: &[u8]) -> (hash: u32)
    ensures
        hash == spec_fnv1a(x@),
{
    let mut hash: u32 = FNV_OFFSET;
    let mut i: usize = 0;
    while i < x.len()
        invariant
            i <= x@.len(),
            hash == spec_fnv1a(x@.take(i as int)),
        decreases x@.len() - i,
    {
        assert(x@.take(i as int + 1).drop_last() =~= x@.take(i as int));
        hash = (hash ^ (x[i] as u32)).wrapping_mul(FNV_PRIME);
        i = i + 1;
    }
    assert(x@.take(x@.len() as int) =~= x@);
    hash
}

/// FNV-1a takes one step per byte at every length: the hash of nothing is
/// the offset basis 0x811c9dc5, and appending a byte xors it into the hash
/// of what came before and multiplies by the prime 16777619 modulo 2^32.
pub proof fn lemma_fnv1a_steps(s: Seq<u8>, b: u8)
    ensures
        spec_fnv1a(Seq::empty()) == 0x811c9dc5u32,
        spec_fnv1a(s.push(b)) == (spec_fnv1a(s) ^ (b as u32)).wrapping_mul(16777619u32),
{
    assert(s.push(b).drop_last() =~= s);
}

} // verus!
