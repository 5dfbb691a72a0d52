use vstd::prelude::*;

verus! {

/// The value of an ASCII hexadecimal digit (either case).
pub open spec fn hex_digit(c: u8) -> Option<u8> {
    if 0x30 <= c <= 0x39 {
        Some((c - 0x30) as u8)
    } else if 0x61 <= c <= 0x66 {
        Some((c - 0x61 + 10) as u8)
    } else if 0x41 <= c <= 0x46 {
        Some((c - 0x41 + 10) as u8)
    } else {
        None
    }
}

/// The byte that a two-character hexadecimal number denotes; as in Rust's
/// unsigned integer parsing, a leading `+` is a sign and the number is then
/// the single digit after it.
pub open spec fn hex_pair(a: u8, b: u8) -> Option<u8> {
    if a == 0x2b {
        hex_digit(b)
    } else {
        match (hex_digit(a), hex_digit(b)) {
            (Some(h), Some(l)) => Some((h * 16 + l) as u8),
            _ => None,
        }
    }
}

/// The text without its `-` characters.
pub open spec fn strip_dashes(s: Seq<u8>) -> Seq<u8>
    decreases s.len(),
{
    if s.len() == 0 {
        s
    } else if s.last() == 0x2d {
        strip_dashes(s.drop_last())
    } else {
        strip_dashes(s.drop_last()).push(s.last())
    }
}

/// The first `n` bytes that the text denotes, two characters each, if they
/// are all hexadecimal numbers.
pub open spec fn decode_pairs(t: Seq<u8>, n: nat) -> Option<Seq<u8>>
    decreases n,
{
    if n == 0 {
        Some(Seq::empty())
    } else {
        match decode_pairs(t, (n - 1) as nat) {
            Some(prev) => match hex_pair(t[2 * n - 2], t[2 * n - 1]) {
                Some(v) => Some(prev.push(v)),
                None => None,
            },
            None => None,
        }
    }
}

/// A user id written in hexadecimal: with its dashes removed, the first 32
/// characters are 16 two-digit hexadecimal numbers; anything after them is
/// ignored.
pub open spec fn spec_parse_uid(s: Seq<u8>) -> Option<Seq<u8>> {
    let t = strip_dashes(s);
    if t.len() < 32 {
        None
    } else {
        decode_pairs(t, 16)
    }
}

fn hex_digit_value(c: u8) -> (r: Option<u8>)
    ensures
        r == hex_digit(c),
{
    if 0x30 <= c && c <= 0x39 {
        Some(c - 0x30)
    } else if 0x61 <= c && c <= 0x66 {
        Some(c - 0x61 + 10)
    } else if 0x41 <= c && c <= 0x46 {
        Some(c - 0x41 + 10)
    } else {
        None
    }
}

fn hex_pair_value(a: u8, b: u8) -> (r: Option<u8>)
    ensures
        r == hex_pair(a, b),
{
    if a == 0x2b {
        return hex_digit_value(b);
    }
    match (hex_digit_value(a), hex_digit_value(b)) {
        (Some(h), Some(l)) => Some(h * 16 + l),
        _ => None,
    }
}

proof fn lemma_decode_pairs_none_stays(t: Seq<u8>, k: nat, n: nat)
    requires
        k <= n,
        decode_pairs(t, k) is None,
    ensures
        decode_pairs(t, n) is None,
    decreases n - k,
{
    if k < n {
        lemma_decode_pairs_none_stays(t, k, (n - 1) as nat);
    }
}

/// Parses a user id written as hexadecimal text, dashes anywhere; `None`
/// when it is not one.
pub fn parse_uid(x: &[u8]) -> (r: Option<[u8; 16]>)
    ensures
        match r {
            Some(u) => spec_parse_uid(x@) == Some(u@),
            None => spec_parse_uid(x@) is None,
        },
{
    let mut t: Vec<u8> = Vec::new();
    let mut i: usize = 0;
    while i < x.len()
        invariant
            i <= x@.len(),
            t@ == strip_dashes(x@.take(i as int)),
        decreases x@.len() - i,
    {
        assert(x@.take(i as int + 1).drop_last() =~= x@.take(i as int));
        if x[i] != 0x2d {
            t.push(x[i]);
        }
        i = i + 1;
    }
    assert(x@.take(x@.len() as int) =~= x@);
    if t.len() < 32 {
        return None;
    }
    let mut r = [0u8; 16];
    let mut k: usize = 0;
    while k < 16
        invariant
            t@ == strip_dashes(x@),
            32 <= t@.len(),
            k <= 16,
            decode_pairs(t@, k as nat) == Some(r@.take(k as int)),
        decreases 16 - k,
    {
        match hex_pair_value(t[2 * k], t[2 * k + 1]) {
            Some(v) => {
                let ghost prev = r@;
                r[k] = v;
                assert(r@.take(k as int + 1) =~= prev.take(k as int).push(v));
            },
            None => {
                proof {
                    lemma_decode_pairs_none_stays(t@, (k + 1) as nat, 16);
                }
                return None;
            },
        }
        k = k + 1;
    }
    assert(r@.take(16) =~= r@);
    Some(r)
}

/// The lowercase hexadecimal digit of a number below 16.
pub open spec fn hex_char(n: u8) -> u8 {
    if n < 10 { (0x30 + n) as u8 } else { (0x61 + n - 10) as u8 }
}

/// Bytes written as lowercase hexadecimal text, two digits each.
pub open spec fn hex_text(u: Seq<u8>) -> Seq<u8> {
    Seq::new(
        2 * u.len(),
        |i: int| if i % 2 == 0 { hex_char(u[i / 2] / 16) } else { hex_char(u[i / 2] % 16) },
    )
}

proof fn lemma_strip_no_dashes(s: Seq<u8>)
    requires
        forall|i: int| 0 <= i < s.len() ==> s[i] != 0x2d,
    ensures
        strip_dashes(s) == s,
    decreases s.len(),
{
    if s.len() > 0 {
        lemma_strip_no_dashes(s.drop_last());
        assert(s.drop_last().push(s.last()) =~= s);
    }
}

proof fn lemma_strip_append(a: Seq<u8>, b: Seq<u8>)
    ensures
        strip_dashes(a + b) == strip_dashes(a) + strip_dashes(b),
    decreases b.len(),
{
    if b.len() == 0 {
        assert(a + b =~= a);
        assert(strip_dashes(a) + strip_dashes(b) =~= strip_dashes(a));
    } else {
        lemma_strip_append(a, b.drop_last());
        assert((a + b).drop_last() =~= a + b.drop_last());
        if b.last() != 0x2d {
            assert((strip_dashes(a) + strip_dashes(b.drop_last())).push(b.last())
                =~= strip_dashes(a) + strip_dashes(b.drop_last()).push(b.last()));
        }
    }
}

proof fn lemma_decode_hex_text(u: Seq<u8>, k: nat)
    requires
        k <= u.len(),
    ensures
        decode_pairs(hex_text(u), k) == Some(u.take(k as int)),
    decreases k,
{
    if k > 0 {
        lemma_decode_hex_text(u, (k - 1) as nat);
        let t = hex_text(u);
        let b = u[k - 1];
        assert(t[2 * k - 2] == hex_char(b / 16));
        assert(t[2 * k - 1] == hex_char(b % 16));
        assert(u.take(k - 1).push(b) =~= u.take(k as int));
    }
}

/// A user id written as lowercase hexadecimal text is read back as itself.
pub proof fn lemma_uid_hex_roundtrip(u: Seq<u8>)
    requires
        u.len() == 16,
    ensures
        spec_parse_uid(hex_text(u)) == Some(u),
{
    let t = hex_text(u);
    assert forall|i: int| 0 <= i < t.len() implies t[i] != 0x2d by {
        let n: u8 = if i % 2 == 0 { u[i / 2] / 16 } else { u[i / 2] % 16 };
        assert(t[i] == hex_char(n));
    }
    lemma_strip_no_dashes(t);
    lemma_decode_hex_text(u, 16);
    assert(u.take(16) =~= u);
}

/// Dashes are ignored wherever they stand: removing one from the text does
/// not change what it parses to.
pub proof fn lemma_uid_dash_ignored(a: Seq<u8>, b: Seq<u8>)
    ensures
        spec_parse_uid(a + seq![0x2du8] + b) == spec_parse_uid(a + b),
{
    lemma_strip_append(a + seq![0x2du8], b);
    lemma_strip_append(a, seq![0x2du8]);
    lemma_strip_append(a, b);
    assert(seq![0x2du8].drop_last() =~= Seq::<u8>::empty());
    assert(strip_dashes(a) + strip_dashes(Seq::<u8>::empty()) =~= strip_dashes(a));
}

} // verus!
