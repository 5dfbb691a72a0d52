use vstd::prelude::*;
use crate::addr::{
    Addr, SpecAddr, be16, from_be16, be16_bytes, push_bytes, lemma_be16_roundtrip,
    lemma_from_be16_roundtrip,
};

verus! {

/// A SOCKS5 server listening on a TCP port.
pub struct Socks5Server {
    port: u16,
}

impl Socks5Server {
    pub fn new(port: u16) -> (s: Socks5Server)
        ensures
            s.port() == port,
    {
        Socks5Server { port }
    }

    /// The port the server listens on.
    #[verifier::when_used_as_spec(spec_port)]
    pub fn port(&self) -> (p: u16)
        ensures
            p == self.spec_port(),
    {
        self.port
    }

    pub closed spec fn spec_port(&self) -> u16 {
        self.port
    }
}

/// Why a client's SOCKS5 message is refused.
#[derive(Debug, Clone, Copy, PartialEq, Eq)]
pub enum SocksError {
    /// The version byte is not 5.
    UnsupportedVersion(u8),
    /// The command is not CONNECT (1).
    UnsupportedCommand(u8),
    /// The address type is none of IPv4 (1), domain (3) or IPv6 (4).
    UnknownAddressType(u8),
}

/// The outcome of parsing a message from the bytes received so far.
#[derive(Debug, Clone, PartialEq, Eq)]
pub enum Parsed<T> {
    /// The message is not complete: at least this many bytes (in all) are
    /// needed before it can be decided.
    Incomplete(usize),
    /// The message, and how many bytes it took.
    Done(T, usize),
    /// The message is refused.
    Invalid(SocksError),
}

impl<T: View> View for Parsed<T> {
    type V = Parsed<T::V>;

    open spec fn view(&self) -> Parsed<T::V> {
        match self {
            Parsed::Incomplete(n) => Parsed::Incomplete(*n),
            Parsed::Done(x, n) => Parsed::Done(x@, *n),
            Parsed::Invalid(e) => Parsed::Invalid(*e),
        }
    }
}

/// The greeting a client opens with: version 5, a method count, and that
/// many method numbers. Done carries whether "no authentication" (0) is
/// among the methods.
pub open spec fn spec_parse_greeting(s: Seq<u8>) -> Parsed<bool> {
    if s.len() < 2 {
        Parsed::Incomplete(2)
    } else if s[0] != 5 {
        Parsed::Invalid(SocksError::UnsupportedVersion(s[0]))
    } else if s.len() < 2 + s[1] {
        Parsed::Incomplete((2 + s[1]) as usize)
    } else {
        Parsed::Done(s.subrange(2, 2 + s[1]).contains(0u8), (2 + s[1]) as usize)
    }
}

/// The address block that follows the first three bytes of a request and of
/// a reply: the address type, the address (a domain with its length byte
/// first), and the port in big-endian order.
pub open spec fn socks_addr_block(a: SpecAddr, port: u16) -> Seq<u8> {
    (match a {
        SpecAddr::V4(x) => seq![1u8] + x,
        SpecAddr::V6(x) => seq![4u8] + x,
        SpecAddr::Domain(x) => seq![3u8, (x.len() % 256) as u8] + x,
    }) + be16(port)
}

/// A CONNECT request: version 5, command 1, a reserved byte, then the
/// address block. Done carries the destination address and port.
pub open spec fn spec_parse_request(s: Seq<u8>) -> Parsed<(SpecAddr, u16)> {
    if s.len() < 4 {
        Parsed::Incomplete(4)
    } else if s[0] != 5 {
        Parsed::Invalid(SocksError::UnsupportedVersion(s[0]))
    } else if s[1] != 1 {
        Parsed::Invalid(SocksError::UnsupportedCommand(s[1]))
    } else if s[3] == 1 {
        if s.len() < 10 {
            Parsed::Incomplete(10)
        } else {
            Parsed::Done((SpecAddr::V4(s.subrange(4, 8)), from_be16(s[8], s[9])), 10)
        }
    } else if s[3] == 4 {
        if s.len() < 22 {
            Parsed::Incomplete(22)
        } else {
            Parsed::Done((SpecAddr::V6(s.subrange(4, 20)), from_be16(s[20], s[21])), 22)
        }
    } else if s[3] == 3 {
        if s.len() < 5 {
            Parsed::Incomplete(5)
        } else if s.len() < 7 + s[4] {
            Parsed::Incomplete((7 + s[4]) as usize)
        } else {
            Parsed::Done(
                (SpecAddr::Domain(s.subrange(5, 5 + s[4])), from_be16(s[5 + s[4]], s[6 + s[4]])),
                (7 + s[4]) as usize,
            )
        }
    } else {
        Parsed::Invalid(SocksError::UnknownAddressType(s[3]))
    }
}

/// Parses the client's greeting from the bytes received so far.
pub fn parse_greeting(buf: &[u8]) -> (r: Parsed<bool>)
    ensures
        r == spec_parse_greeting(buf@),
{
    if buf.len() < 2 {
        return Parsed::Incomplete(2);
    }
    if buf[0] != 5 {
        return Parsed::Invalid(SocksError::UnsupportedVersion(buf[0]));
    }
    let n = buf[1] as usize;
    if buf.len() < 2 + n {
        return Parsed::Incomplete(2 + n);
    }
    let ghost methods = buf@.subrange(2, 2 + n as int);
    let mut i: usize = 0;
    while i < n
        invariant
            buf@[0] == 5,
            n == buf@[1],
            2 + n <= buf@.len(),
            methods == buf@.subrange(2, 2 + n as int),
            i <= n,
            forall|j: int| 0 <= j < i ==> methods[j] != 0u8,
        decreases n - i,
    {
        if buf[2 + i] == 0 {
            assert(methods[i as int] == 0u8);
            assert(methods.contains(0u8));
            return Parsed::Done(true, 2 + n);
        }
        i = i + 1;
    }
    assert(!methods.contains(0u8));
    Parsed::Done(false, 2 + n)
}

/// The server's answer to the greeting: "no authentication" when the client
/// offers it, "no acceptable method" (0xff) otherwise.
pub fn greeting_reply(accepted: bool) -> (r: [u8; 2])
    ensures
        r@ == (if accepted { seq![5u8, 0u8] } else { seq![5u8, 0xffu8] }),
{
    let r = if accepted { [5u8, 0u8] } else { [5u8, 0xffu8] };
    assert(r@ =~= (if accepted { seq![5u8, 0u8] } else { seq![5u8, 0xffu8] }));
    r
}

fn copy_array4(buf: &[u8], start: usize) -> (a: [u8; 4])
    requires
        start + 4 <= buf.len(),
    ensures
        a@ == buf@.subrange(start as int, start + 4),
{
    let mut a = [0u8; 4];
    let mut j: usize = 0;
    while j < 4
        invariant
            start + 4 <= buf.len(),
            j <= 4,
            forall|k: int| 0 <= k < j ==> a@[k] == buf@[start + k],
        decreases 4 - j,
    {
        a[j] = buf[start + j];
        j = j + 1;
    }
    assert(a@ =~= buf@.subrange(start as int, start + 4));
    a
}

fn copy_array16(buf: &[u8], start: usize) -> (a: [u8; 16])
    requires
        start + 16 <= buf.len(),
    ensures
        a@ == buf@.subrange(start as int, start + 16),
{
    let mut a = [0u8; 16];
    let mut j: usize = 0;
    while j < 16
        invariant
            start + 16 <= buf.len(),
            j <= 16,
            forall|k: int| 0 <= k < j ==> a@[k] == buf@[start + k],
        decreases 16 - j,
    {
        a[j] = buf[start + j];
        j = j + 1;
    }
    assert(a@ =~= buf@.subrange(start as int, start + 16));
    a
}

/// Copies `len` bytes of `buf` from `start` into a new vector.
fn copy_range(buf: &[u8], start: usize, len: usize) -> (v: Vec<u8>)
    requires
        start + len <= buf.len(),
    ensures
        v@ == buf@.subrange(start as int, start + len),
{
    let mut v: Vec<u8> = Vec::new();
    let mut j: usize = 0;
    while j < len
        invariant
            start + len <= buf.len(),
            j <= len,
            v@ == buf@.subrange(start as int, start + j),
        decreases len - j,
    {
        v.push(buf[start + j]);
        j = j + 1;
        assert(v@ =~= buf@.subrange(start as int, start + j));
    }
    v
}

fn port_from(hi: u8, lo: u8) -> (p: u16)
    ensures
        p == from_be16(hi, lo),
{
    (hi as u16) * 256 + (lo as u16)
}

/// Parses the client's CONNECT request from the bytes received so far.
pub fn parse_request(buf: &[u8]) -> (r: Parsed<(Addr, u16)>)
    ensures
        r@ == spec_parse_request(buf@),
{
    if buf.len() < 4 {
        return Parsed::Incomplete(4);
    }
    if buf[0] != 5 {
        return Parsed::Invalid(SocksError::UnsupportedVersion(buf[0]));
    }
    if buf[1] != 1 {
        return Parsed::Invalid(SocksError::UnsupportedCommand(buf[1]));
    }
    let atyp = buf[3];
    if atyp == 1 {
        if buf.len() < 10 {
            return Parsed::Incomplete(10);
        }
        let a = copy_array4(buf, 4);
        Parsed::Done((Addr::V4(a), port_from(buf[8], buf[9])), 10)
    } else if atyp == 4 {
        if buf.len() < 22 {
            return Parsed::Incomplete(22);
        }
        let a = copy_array16(buf, 4);
        Parsed::Done((Addr::V6(a), port_from(buf[20], buf[21])), 22)
    } else if atyp == 3 {
        if buf.len() < 5 {
            return Parsed::Incomplete(5);
        }
        let n = buf[4] as usize;
        if buf.len() < 7 + n {
            return Parsed::Incomplete(7 + n);
        }
        let d = copy_range(buf, 5, n);
        Parsed::Done((Addr::Domain(d), port_from(buf[5 + n], buf[6 + n])), 7 + n)
    } else {
        Parsed::Invalid(SocksError::UnknownAddressType(atyp))
    }
}

/// The server's reply to a granted request: version 5, success, a reserved
/// zero, then the address block of the local end of the outgoing connection.
/// A domain's length byte is its length modulo 256.
pub fn reply_request(addr: &Addr, port: u16) -> (reply: Vec<u8>)
    ensures
        reply@ == seq![5u8, 0u8, 0u8] + socks_addr_block(addr@, port),
{
    let mut reply: Vec<u8> = Vec::with_capacity(22);
    reply.push(5);
    reply.push(0);
    reply.push(0);
    match addr {
        Addr::V4(x) => {
            reply.push(1);
            push_bytes(&mut reply, x);
        },
        Addr::V6(x) => {
            reply.push(4);
            push_bytes(&mut reply, x);
        },
        Addr::Domain(x) => {
            reply.push(3);
            reply.push((x.len() % 256) as u8);
            push_bytes(&mut reply, x.as_slice());
        },
    }
    let p = be16_bytes(port);
    push_bytes(&mut reply, &p);
    assert(reply@ =~= seq![5u8, 0u8, 0u8] + socks_addr_block(addr@, port));
    reply
}

/// What a request carries is read back from it: a CONNECT request whose
/// address block is the one the server replies with, for any address the
/// wire can carry, parses to that address and port, whatever follows it.
pub proof fn lemma_request_roundtrip(a: SpecAddr, port: u16, rsv: u8, rest: Seq<u8>)
    requires
        a.fits_wire(),
    ensures
        spec_parse_request(seq![5u8, 1u8, rsv] + socks_addr_block(a, port) + rest)
            == Parsed::Done((a, port), (3 + socks_addr_block(a, port).len()) as usize),
{
    let block = socks_addr_block(a, port);
    let s = seq![5u8, 1u8, rsv] + block + rest;
    lemma_be16_roundtrip(port);
    match a {
        SpecAddr::V4(x) => {
            assert(s.subrange(4, 8) =~= x);
            assert(s[8] == be16(port)[0] && s[9] == be16(port)[1]);
        },
        SpecAddr::V6(x) => {
            assert(s.subrange(4, 20) =~= x);
            assert(s[20] == be16(port)[0] && s[21] == be16(port)[1]);
        },
        SpecAddr::Domain(x) => {
            let m = x.len() as int;
            assert(s[4] == m);
            assert(s.subrange(5, 5 + m) =~= x);
            assert(s[5 + m] == be16(port)[0] && s[6 + m] == be16(port)[1]);
        },
    }
}

/// A parsed request is exactly its first bytes: version, command, reserved
/// byte, and the address block of what it carries, which the wire can carry.
pub proof fn lemma_request_parse_encodes(s: Seq<u8>)
    ensures
        spec_parse_request(s) matches Parsed::Done((a, port), n) ==> {
            &&& n <= s.len()
            &&& a.fits_wire()
            &&& s.subrange(0, n as int) == seq![5u8, 1u8, s[2]] + socks_addr_block(a, port)
        },
{
    if let Parsed::Done((a, port), n) = spec_parse_request(s) {
        lemma_from_be16_roundtrip(s[(n - 2) as int], s[(n - 1) as int]);
        assert(s.subrange(0, n as int) =~= seq![5u8, 1u8, s[2]] + socks_addr_block(a, port));
    }
}

/// Reading more bytes never changes a decision already made: once the
/// greeting parses or is refused, any longer input gives the same outcome;
/// while it is incomplete, more bytes than are present are asked for.
pub proof fn lemma_greeting_prefix_stable(s: Seq<u8>, t: Seq<u8>)
    ensures
        spec_parse_greeting(s) matches Parsed::Incomplete(n) ==> n > s.len(),
        !(spec_parse_greeting(s) is Incomplete) ==> spec_parse_greeting(s + t)
            == spec_parse_greeting(s),
{
    if !(spec_parse_greeting(s) is Incomplete) {
        let u = s + t;
        assert(u[0] == s[0] && u[1] == s[1]);
        if s[0] == 5 {
            assert(u.subrange(2, 2 + s[1]) =~= s.subrange(2, 2 + s[1]));
        }
    }
}

/// Reading more bytes never changes a decision already made: once the
/// request parses or is refused, any longer input gives the same outcome;
/// while it is incomplete, more bytes than are present are asked for.
pub proof fn lemma_request_prefix_stable(s: Seq<u8>, t: Seq<u8>)
    ensures
        spec_parse_request(s) matches Parsed::Incomplete(n) ==> n > s.len(),
        !(spec_parse_request(s) is Incomplete) ==> spec_parse_request(s + t)
            == spec_parse_request(s),
{
    if !(spec_parse_request(s) is Incomplete) {
        let u = s + t;
        assert(forall|i: int| 0 <= i < s.len() ==> u[i] == s[i]);
        if let Parsed::Done(_, n) = spec_parse_request(s) {
            if s[3] == 1 {
                assert(u.subrange(4, 8) =~= s.subrange(4, 8));
            } else if s[3] == 4 {
                assert(u.subrange(4, 20) =~= s.subrange(4, 20));
            } else {
                assert(u.subrange(5, 5 + s[4]) =~= s.subrange(5, 5 + s[4]));
            }
        }
    }
}

/// A complete greeting from a version-5 client is accepted exactly when
/// "no authentication" (0) is one of the methods it offers, wherever it
/// stands in the list; the greeting takes two bytes plus one per method.
pub proof fn lemma_greeting_accepts_iff_no_auth_offered(s: Seq<u8>)
    requires
        s.len() >= 2,
        s[0] == 5,
        s.len() >= 2 + s[1],
    ensures
        spec_parse_greeting(s) == Parsed::Done(
            exists|i: int| 2 <= i < 2 + s[1] && s[i] == 0u8,
            (2 + s[1]) as usize,
        ),
{
    let m = s.subrange(2, 2 + s[1]);
    if exists|i: int| 2 <= i < 2 + s[1] && s[i] == 0u8 {
        let i = choose|i: int| 2 <= i < 2 + s[1] && s[i] == 0u8;
        assert(m[i - 2] == 0u8);
        assert(m.contains(0u8));
    } else {
        assert forall|j: int| 0 <= j < m.len() implies m[j] != 0u8 by {
            assert(m[j] == s[j + 2]);
        }
    }
}

/// The server never asks for more than a request needs: when the bytes so
/// far are incomplete but some continuation of them is a complete request of
/// `m` bytes, the number of bytes asked for is at most `m` (and more than
/// are present).
pub proof fn lemma_request_asks_no_more_than_needed(s: Seq<u8>, t: Seq<u8>)
    ensures
        spec_parse_request(s) matches Parsed::Incomplete(n) ==> (
            spec_parse_request(s + t) matches Parsed::Done(_, m) ==> s.len() < n <= m),
{
    let u = s + t;
    assert(forall|i: int| 0 <= i < s.len() ==> u[i] == s[i]);
}

/// The same for the greeting: an incomplete greeting asks for no more bytes
/// than any complete greeting that extends it takes.
pub proof fn lemma_greeting_asks_no_more_than_needed(s: Seq<u8>, t: Seq<u8>)
    ensures
        spec_parse_greeting(s) matches Parsed::Incomplete(n) ==> (
            spec_parse_greeting(s + t) matches Parsed::Done(_, m) ==> s.len() < n <= m),
{
    let u = s + t;
    assert(forall|i: int| 0 <= i < s.len() ==> u[i] == s[i]);
}

} // verus!
