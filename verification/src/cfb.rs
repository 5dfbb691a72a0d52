use vstd::prelude::*;
use crate::primitives::{aes128_encrypt, aes128_encrypt_block};

verus! {

/// The model of an AES-128-CFB (128-bit feedback) stream: the key, the
/// feedback register, and how many of its bytes have been used.
pub struct CfbState {
    pub key: Seq<u8>,
    pub state: Seq<u8>,
    pub p: nat,
}

/// Before a byte is processed, a register whose sixteen bytes are all used is
/// replaced by its AES encryption and the position starts again at zero.
pub open spec fn refresh(s: CfbState) -> CfbState {
    if s.p == 16 {
        CfbState { key: s.key, state: aes128_encrypt(s.key, s.state), p: 0 }
    } else {
        s
    }
}

/// The key-stream byte that the next byte is combined with.
pub open spec fn pad(s: CfbState) -> u8 {
    refresh(s).state[refresh(s).p as int]
}

/// The register after the ciphertext byte `c` is fed back into it.
pub open spec fn absorb(s: CfbState, c: u8) -> CfbState {
    let r = refresh(s);
    CfbState { key: r.key, state: r.state.update(r.p as int, c), p: r.p + 1 }
}

/// Encrypting `data` from stream state `s`: the ciphertext and the next state.
pub open spec fn cfb_encrypt(s: CfbState, data: Seq<u8>) -> (Seq<u8>, CfbState)
    decreases data.len(),
{
    if data.len() == 0 {
        (Seq::empty(), s)
    } else {
        let (out, t) = cfb_encrypt(s, data.drop_last());
        let c = data.last() ^ pad(t);
        (out.push(c), absorb(t, c))
    }
}

/// Decrypting `data` from stream state `s`: the plaintext and the next state.
pub open spec fn cfb_decrypt(s: CfbState, data: Seq<u8>) -> (Seq<u8>, CfbState)
    decreases data.len(),
{
    if data.len() == 0 {
        (Seq::empty(), s)
    } else {
        let (out, t) = cfb_decrypt(s, data.drop_last());
        (out.push(data.last() ^ pad(t)), absorb(t, data.last()))
    }
}

/// The stream state that a key and IV start from: the IV in the register,
/// all of it counted as used, so the first byte encrypts it.
pub open spec fn cfb_start(key: Seq<u8>, iv: Seq<u8>) -> CfbState {
    CfbState { key, state: iv, p: 16 }
}

proof fn lemma_xor_twice(x: u8, k: u8)
    ensures
        (x ^ k) ^ k == x,
{
    assert((x ^ k) ^ k == x) by (bit_vector);
}

/// Encryption and decryption yield as many bytes as they are given.
pub proof fn lemma_cfb_lengths(s: CfbState, d: Seq<u8>)
    ensures
        cfb_encrypt(s, d).0.len() == d.len(),
        cfb_decrypt(s, d).0.len() == d.len(),
    decreases d.len(),
{
    if d.len() > 0 {
        lemma_cfb_lengths(s, d.drop_last());
    }
}

/// Decryption undoes encryption from the same state, and both leave the
/// stream in the same state.
pub proof fn lemma_decrypt_encrypt(s: CfbState, d: Seq<u8>)
    ensures
        cfb_decrypt(s, cfb_encrypt(s, d).0) == (d, cfb_encrypt(s, d).1),
    decreases d.len(),
{
    if d.len() > 0 {
        let (out, t) = cfb_encrypt(s, d.drop_last());
        lemma_decrypt_encrypt(s, d.drop_last());
        let c = d.last() ^ pad(t);
        assert(out.push(c).drop_last() =~= out);
        lemma_xor_twice(d.last(), pad(t));
        assert(cfb_decrypt(s, out).0.push(d.last()) =~= d);
    }
}

/// Encryption undoes decryption from the same state, and both leave the
/// stream in the same state.
pub proof fn lemma_encrypt_decrypt(s: CfbState, c: Seq<u8>)
    ensures
        cfb_encrypt(s, cfb_decrypt(s, c).0) == (c, cfb_decrypt(s, c).1),
    decreases c.len(),
{
    if c.len() > 0 {
        let (out, t) = cfb_decrypt(s, c.drop_last());
        lemma_encrypt_decrypt(s, c.drop_last());
        let b = c.last() ^ pad(t);
        assert(out.push(b).drop_last() =~= out);
        lemma_xor_twice(c.last(), pad(t));
        assert(cfb_encrypt(s, out).0.push(c.last()) =~= c);
    }
}

/// Encrypting `a + b` is encrypting `a` and then `b` from where `a` left the
/// stream: the cipher may be fed in pieces of any size.
pub proof fn lemma_encrypt_split(s: CfbState, a: Seq<u8>, b: Seq<u8>)
    ensures
        cfb_encrypt(s, a + b) == (
            cfb_encrypt(s, a).0 + cfb_encrypt(cfb_encrypt(s, a).1, b).0,
            cfb_encrypt(cfb_encrypt(s, a).1, b).1,
        ),
    decreases b.len(),
{
    if b.len() == 0 {
        assert(a + b =~= a);
        assert(cfb_encrypt(s, a).0 + Seq::<u8>::empty() =~= cfb_encrypt(s, a).0);
    } else {
        lemma_encrypt_split(s, a, b.drop_last());
        assert((a + b).drop_last() =~= a + b.drop_last());
        let t = cfb_encrypt(s, a).1;
        let (o1, _) = cfb_encrypt(s, a);
        let (o2, _) = cfb_encrypt(t, b.drop_last());
        let c = b.last() ^ pad(cfb_encrypt(t, b.drop_last()).1);
        assert((o1 + o2).push(c) =~= o1 + o2.push(c));
    }
}

/// Decrypting `a + b` is decrypting `a` and then `b` from where `a` left the
/// stream: the cipher may be fed in pieces of any size.
pub proof fn lemma_decrypt_split(s: CfbState, a: Seq<u8>, b: Seq<u8>)
    ensures
        cfb_decrypt(s, a + b) == (
            cfb_decrypt(s, a).0 + cfb_decrypt(cfb_decrypt(s, a).1, b).0,
            cfb_decrypt(cfb_decrypt(s, a).1, b).1,
        ),
    decreases b.len(),
{
    if b.len() == 0 {
        assert(a + b =~= a);
        assert(cfb_decrypt(s, a).0 + Seq::<u8>::empty() =~= cfb_decrypt(s, a).0);
    } else {
        lemma_decrypt_split(s, a, b.drop_last());
        assert((a + b).drop_last() =~= a + b.drop_last());
        let t = cfb_decrypt(s, a).1;
        let (o1, _) = cfb_decrypt(s, a);
        let (o2, _) = cfb_decrypt(t, b.drop_last());
        let x = b.last() ^ pad(cfb_decrypt(t, b.drop_last()).1);
        assert((o1 + o2).push(x) =~= o1 + o2.push(x));
    }
}

/// Where the register position stands after `n` more bytes from position
/// `p`: unchanged for no bytes, otherwise one past the last byte used, the
/// register being renewed each time all sixteen are used.
pub open spec fn position_after(p: nat, n: nat) -> nat {
    if n == 0 {
        p
    } else {
        ((p + n - 1) % 16 + 1) as nat
    }
}

/// The key never changes, and the register position moves by one per byte
/// (from 1 to 16, then back to 1), in encryption and decryption alike.
pub proof fn lemma_cfb_position(s: CfbState, d: Seq<u8>)
    requires
        s.p <= 16,
    ensures
        cfb_encrypt(s, d).1.p == position_after(s.p, d.len()),
        cfb_encrypt(s, d).1.key == s.key,
        cfb_decrypt(s, d).1.p == position_after(s.p, d.len()),
        cfb_decrypt(s, d).1.key == s.key,
    decreases d.len(),
{
    if d.len() > 0 {
        lemma_cfb_position(s, d.drop_last());
        let n = d.len();
        let p = s.p;
        if n > 1 {
            let q = position_after(p, (n - 1) as nat);
            assert(q == (p + n - 2) % 16 + 1);
            if q == 16 {
                assert((p + n - 1) % 16 == 0);
            } else {
                assert((p + n - 1) % 16 == (p + n - 2) % 16 + 1);
            }
        }
    }
}

/// A stream started from a key and IV that has processed `d` (all the bytes
/// given to it so far, in any number of calls) keeps its key, and its
/// register position is 16 when that count is a multiple of 16 and the
/// count modulo 16 otherwise.
pub proof fn lemma_cfb_start_position(key: Seq<u8>, iv: Seq<u8>, d: Seq<u8>)
    ensures
        cfb_encrypt(cfb_start(key, iv), d).1.key == key,
        cfb_encrypt(cfb_start(key, iv), d).1.p == (if d.len() % 16 == 0 { 16 } else { d.len() % 16 }),
        cfb_decrypt(cfb_start(key, iv), d).1.key == key,
        cfb_decrypt(cfb_start(key, iv), d).1.p == (if d.len() % 16 == 0 { 16 } else { d.len() % 16 }),
{
    lemma_cfb_position(cfb_start(key, iv), d);
}

/// An AES-128-CFB encoder/decoder with its running feedback register.
#[allow(non_camel_case_types)]
pub struct AES128CFB {
    key: [u8; 16],
    state: [u8; 16],
    p: usize,
}

impl View for AES128CFB {
    type V = CfbState;

    closed spec fn view(&self) -> CfbState {
        CfbState { key: self.key@, state: self.state@, p: self.p as nat }
    }
}

impl AES128CFB {
    #[verifier::type_invariant]
    spec fn inv(self) -> bool {
        self.p <= 16
    }

    /// A stream over `key` whose register starts as `iv`.
    #[allow(non_snake_case)]
    pub fn new(key: [u8; 16], IV: [u8; 16]) -> (c: AES128CFB)
        ensures
            c@ == cfb_start(key@, IV@),
    {
        AES128CFB { key, state: IV, p: 16 }
    }

    /// A stream resumed from a saved key, register and position.
    pub fn resume(key: [u8; 16], register: [u8; 16], position: usize) -> (c: AES128CFB)
        requires
            position <= 16,
        ensures
            c@ == (CfbState { key: key@, state: register@, p: position as nat }),
    {
        AES128CFB { key, state: register, p: position }
    }

    /// The key.
    pub fn key(&self) -> (k: [u8; 16])
        ensures
            k@ == self@.key,
    {
        self.key
    }

    /// The feedback register.
    pub fn register(&self) -> (r: [u8; 16])
        ensures
            r@ == self@.state,
    {
        self.state
    }

    /// How many bytes of the register have been used (0 to 16).
    pub fn position(&self) -> (p: usize)
        ensures
            p == self@.p,
            p <= 16,
    {
        proof {
            use_type_invariant(self);
        }
        self.p
    }

    /// Makes sure the register has an unused byte, encrypting it once all
    /// sixteen have been used.
    fn refill(&mut self)
        ensures
            final(self)@ == refresh(old(self)@),
            final(self).p < 16,
    {
        proof {
            use_type_invariant(&*self);
        }
        if self.p == 16 {
            let out = aes128_encrypt_block(&self.key, &self.state);
            self.state = out;
            self.p = 0;
        }
    }

    /// Encrypts `data` in place, continuing the stream.
    pub fn encode(&mut self, data: &mut Vec<u8>)
        ensures
            (final(data)@, final(self)@) == cfb_encrypt(old(self)@, old(data)@),
            final(data)@.len() == old(data)@.len(),
            final(self)@.key == old(self)@.key,
            final(self)@.p == position_after(old(self)@.p, old(data)@.len()),
    {
        proof {
            use_type_invariant(&*self);
            lemma_cfb_lengths(self@, data@);
            lemma_cfb_position(self@, data@);
        }
        let ghost s0 = self@;
        let ghost d0 = data@;
        let n = data.len();
        let mut i: usize = 0;
        while i < n
            invariant
                n == d0.len(),
                data@.len() == n,
                i <= n,
                data@.take(i as int) == cfb_encrypt(s0, d0.take(i as int)).0,
                forall|j: int| i <= j < n ==> data@[j] == d0[j],
                self@ == cfb_encrypt(s0, d0.take(i as int)).1,
            decreases n - i,
        {
            assert(d0.take(i as int + 1).drop_last() =~= d0.take(i as int));
            assert(d0.take(i as int + 1).last() == d0[i as int]);
            self.refill();
            let idx = self.p;
            let c = data[i] ^ self.state[idx];
            self.state[idx] = c;
            data[i] = c;
            self.p = idx + 1;
            i = i + 1;
            assert(data@.take(i as int) =~= cfb_encrypt(s0, d0.take(i as int)).0);
        }
        assert(d0.take(n as int) =~= d0);
        assert(data@.take(n as int) =~= data@);
    }

    /// Decrypts `data` in place, continuing the stream.
    pub fn decode(&mut self, data: &mut Vec<u8>)
        ensures
            (final(data)@, final(self)@) == cfb_decrypt(old(self)@, old(data)@),
            final(data)@.len() == old(data)@.len(),
            final(self)@.key == old(self)@.key,
            final(self)@.p == position_after(old(self)@.p, old(data)@.len()),
    {
        proof {
            use_type_invariant(&*self);
            lemma_cfb_lengths(self@, data@);
            lemma_cfb_position(self@, data@);
        }
        let ghost s0 = self@;
        let ghost d0 = data@;
        let n = data.len();
        let mut i: usize = 0;
        while i < n
            invariant
                n == d0.len(),
                data@.len() == n,
                i <= n,
                data@.take(i as int) == cfb_decrypt(s0, d0.take(i as int)).0,
                forall|j: int| i <= j < n ==> data@[j] == d0[j],
                self@ == cfb_decrypt(s0, d0.take(i as int)).1,
            decreases n - i,
        {
            assert(d0.take(i as int + 1).drop_last() =~= d0.take(i as int));
            assert(d0.take(i as int + 1).last() == d0[i as int]);
            self.refill();
            let idx = self.p;
            let c = data[i];
            data[i] = c ^ self.state[idx];
            self.state[idx] = c;
            self.p = idx + 1;
            i = i + 1;
            assert(data@.take(i as int) =~= cfb_decrypt(s0, d0.take(i as int)).0);
        }
        assert(d0.take(n as int) =~= d0);
        assert(data@.take(n as int) =~= data@);
    }
}

} // verus!
