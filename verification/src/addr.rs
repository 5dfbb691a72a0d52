use vstd::prelude::*;

verus! {

/// A destination address as SOCKS5 and VMess carry it.
#[derive(Debug, Clone, PartialEq, Eq)]
pub enum Addr {
    V4([u8; 4]),
    V6([u8; 16]),
    Domain(Vec<u8>),
}

/// The mathematical model of an [`Addr`]: the kind and its bytes.
pub enum SpecAddr {
    V4(Seq<u8>),
    V6(Seq<u8>),
    Domain(Seq<u8>),
}

impl View for Addr {
    type V = SpecAddr;

    open spec fn view(&self) -> SpecAddr {
        match self {
            Addr::V4(x) => SpecAddr::V4(x@),
            Addr::V6(x) => SpecAddr::V6(x@),
            Addr::Domain(x) => SpecAddr::Domain(x@),
        }
    }
}

impl SpecAddr {
    /// The bytes of the address itself (without any kind tag or length).
    pub open spec fn bytes(self) -> Seq<u8> {
        match self {
            SpecAddr::V4(x) => x,
            SpecAddr::V6(x) => x,
            SpecAddr::Domain(x) => x,
        }
    }

    /// An address that the wire formats can carry exactly: four bytes for
    /// IPv4, sixteen for IPv6, and a domain whose length fits in one byte.
    pub open spec fn fits_wire(self) -> bool {
        match self {
            SpecAddr::V4(x) => x.len() == 4,
            SpecAddr::V6(x) => x.len() == 16,
            SpecAddr::Domain(x) => x.len() <= 255,
        }
    }
}

/// Appends a byte slice to a vector.
pub(crate) fn push_bytes(v: &mut Vec<u8>, s: &[u8])
    ensures
        final(v)@ == old(v)@ + s@,
{
    let mut i: usize = 0;
    while i < s.len()
        invariant
            i <= s@.len(),
            v@ == old(v)@ + s@.take(i as int),
        decreases s@.len() - i,
    {
        v.push(s[i]);
        i = i + 1;
        assert(v@ =~= old(v)@ + s@.take(i as int));
    }
    assert(s@.take(s@.len() as int) =~= s@);
}

/// The big-endian bytes of a 16-bit number.
pub open spec fn be16(x: u16) -> Seq<u8> {
    seq![(x / 256) as u8, (x % 256) as u8]
}

/// The big-endian bytes of a 32-bit number.
pub open spec fn be32(x: u32) -> Seq<u8> {
    seq![
        (x / 0x100_0000) as u8,
        ((x / 0x1_0000) % 256) as u8,
        ((x / 256) % 256) as u8,
        (x % 256) as u8,
    ]
}

/// The big-endian bytes of a 64-bit number.
pub open spec fn be64(x: u64) -> Seq<u8> {
    be32((x / 0x1_0000_0000) as u32) + be32((x % 0x1_0000_0000) as u32)
}

/// The number that two big-endian bytes encode.
pub open spec fn from_be16(hi: u8, lo: u8) -> u16 {
    (hi * 256 + lo) as u16
}

/// The number that four big-endian bytes encode.
pub open spec fn from_be32(b: Seq<u8>) -> u32 {
    (b[0] * 0x100_0000 + b[1] * 0x1_0000 + b[2] * 256 + b[3]) as u32
}

/// Reading two big-endian bytes gives back the number they were written from.
pub proof fn lemma_be16_roundtrip(p: u16)
    ensures
        from_be16(be16(p)[0], be16(p)[1]) == p,
{
}

/// Writing a number read from two big-endian bytes gives back those bytes.
pub proof fn lemma_from_be16_roundtrip(hi: u8, lo: u8)
    ensures
        be16(from_be16(hi, lo)) == seq![hi, lo],
{
    assert(be16(from_be16(hi, lo)) =~= seq![hi, lo]);
}

/// Reading four big-endian bytes gives back the number they were written from.
pub proof fn lemma_be32_roundtrip(x: u32)
    ensures
        from_be32(be32(x)) == x,
{
}

/// The base-256 digits of a 64-bit number, most significant first.
pub open spec fn digits64(x: u64) -> Seq<u8> {
    seq![
        ((x / 0x100_0000_0000_0000) % 256) as u8,
        ((x / 0x1_0000_0000_0000) % 256) as u8,
        ((x / 0x100_0000_0000) % 256) as u8,
        ((x / 0x1_0000_0000) % 256) as u8,
        ((x / 0x100_0000) % 256) as u8,
        ((x / 0x1_0000) % 256) as u8,
        ((x / 0x100) % 256) as u8,
        (x % 256) as u8,
    ]
}

/// The eight big-endian bytes of a 64-bit number are its base-256 digits,
/// most significant first.
pub proof fn lemma_be64_digits(x: u64)
    ensures
        be64(x) == digits64(x),
{
    let hi = (x / 0x1_0000_0000) as u32;
    let lo = (x % 0x1_0000_0000) as u32;
    assert(hi / 0x100_0000 == (x / 0x100_0000_0000_0000) % 256) by (bit_vector)
        requires hi == (x / 0x1_0000_0000) as u32;
    assert((hi / 0x1_0000) % 256 == (x / 0x1_0000_0000_0000) % 256) by (bit_vector)
        requires hi == (x / 0x1_0000_0000) as u32;
    assert((hi / 256) % 256 == (x / 0x100_0000_0000) % 256) by (bit_vector)
        requires hi == (x / 0x1_0000_0000) as u32;
    assert(hi % 256 == (x / 0x1_0000_0000) % 256) by (bit_vector)
        requires hi == (x / 0x1_0000_0000) as u32;
    assert(lo / 0x100_0000 == (x / 0x100_0000) % 256) by (bit_vector)
        requires lo == (x % 0x1_0000_0000) as u32;
    assert((lo / 0x1_0000) % 256 == (x / 0x1_0000) % 256) by (bit_vector)
        requires lo == (x % 0x1_0000_0000) as u32;
    assert((lo / 256) % 256 == (x / 256) % 256) by (bit_vector)
        requires lo == (x % 0x1_0000_0000) as u32;
    assert(lo % 256 == x % 256) by (bit_vector)
        requires lo == (x % 0x1_0000_0000) as u32;
    assert(be64(x) =~= digits64(x));
}

pub(crate) fn be16_bytes(x: u16) -> (b: [u8; 2])
    ensures
        b@ == be16(x),
{
    let b = [(x / 256) as u8, (x % 256) as u8];
    assert(b@ =~= be16(x));
    b
}

pub(crate) fn be32_bytes(x: u32) -> (b: [u8; 4])
    ensures
        b@ == be32(x),
{
    let b = [
        (x / 0x100_0000) as u8,
        ((x / 0x1_0000) % 256) as u8,
        ((x / 256) % 256) as u8,
        (x % 256) as u8,
    ];
    assert(b@ =~= be32(x));
    b
}

pub(crate) fn be64_bytes(x: u64) -> (b: Vec<u8>)
    ensures
        b@ == be64(x),
{
    let hi = be32_bytes((x / 0x1_0000_0000) as u32);
    let lo = be32_bytes((x % 0x1_0000_0000) as u32);
    let mut b: Vec<u8> = Vec::new();
    push_bytes(&mut b, &hi);
    push_bytes(&mut b, &lo);
    b
}

} // verus!
