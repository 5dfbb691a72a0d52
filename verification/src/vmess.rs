use vstd::prelude::*;
use crate::addr::{
    Addr, SpecAddr, be16, be32, be64, from_be16, from_be32, be16_bytes, be32_bytes, be64_bytes,
    push_bytes, lemma_be16_roundtrip, lemma_be32_roundtrip, lemma_be64_digits, digits64,
};
use crate::cfb::{
    AES128CFB, CfbState, cfb_encrypt, cfb_decrypt, cfb_start, lemma_cfb_lengths,
    lemma_decrypt_encrypt, lemma_encrypt_split,
};
use crate::fnv::{fnv1a, spec_fnv1a};
use crate::primitives::{md5, hmac_md5, md5_digest, hmac_md5_digest};

verus! {

/// The response-authentication byte a request carries; the server's
/// response must start with it.
pub const RESPONSE_AUTH: u8 = 39;

/// The address block of a VMess request: the address type (IPv4 1, domain 2,
/// IPv6 3) and the address, a domain with its length byte (modulo 256) first.
pub open spec fn vmess_addr_block(a: SpecAddr) -> Seq<u8> {
    match a {
        SpecAddr::V4(x) => seq![1u8] + x,
        SpecAddr::V6(x) => seq![3u8] + x,
        SpecAddr::Domain(x) => seq![2u8, (x.len() % 256) as u8] + x,
    }
}

/// The command section before its checksum: version 1, the data IV and key,
/// the response-authentication byte, option 1 (standard stream), no padding
/// and AES-128-CFB security (0), a reserved zero, command 1 (TCP), the port
/// in big-endian order, and the address block.
pub open spec fn command_body(key: Seq<u8>, iv: Seq<u8>, a: SpecAddr, port: u16) -> Seq<u8> {
    seq![1u8] + iv + key + seq![RESPONSE_AUTH, 1u8, 0u8, 0u8, 1u8] + be16(port) + vmess_addr_block(a)
}

/// The command section: its body followed by the big-endian FNV-1a of it.
pub open spec fn spec_request_command(key: Seq<u8>, iv: Seq<u8>, a: SpecAddr, port: u16) -> Seq<u8> {
    let body = command_body(key, iv, a, port);
    body + be32(spec_fnv1a(body))
}

/// The text that is hashed with the user id into the header key.
pub open spec fn header_salt() -> Seq<u8> {
    seq![
        0x63u8, 0x34, 0x38, 0x36, 0x31, 0x39, 0x66, 0x65, 0x2d, 0x38, 0x66, 0x30, 0x32, 0x2d,
        0x34, 0x39, 0x65, 0x30, 0x2d, 0x62, 0x39, 0x65, 0x39, 0x2d, 0x65, 0x64, 0x66, 0x37,
        0x36, 0x33, 0x65, 0x31, 0x37, 0x65, 0x32, 0x31,
    ]
}

/// The stream that encrypts the command section: key MD5(user id ++ salt),
/// IV MD5 of the big-endian time repeated four times.
pub open spec fn header_cipher(user_id: Seq<u8>, time: u64) -> CfbState {
    let t = be64(time);
    cfb_start(md5(user_id + header_salt()), md5(t + t + t + t))
}

/// The request header: HMAC-MD5 of the big-endian time under the user id,
/// then the encrypted command section.
pub open spec fn spec_request_header(
    user_id: Seq<u8>,
    a: SpecAddr,
    port: u16,
    key: Seq<u8>,
    iv: Seq<u8>,
    time: u64,
) -> Seq<u8> {
    hmac_md5(user_id, be64(time)) + cfb_encrypt(
        header_cipher(user_id, time),
        spec_request_command(key, iv, a, port),
    ).0
}

/// A data frame before encryption: the length of what follows it (payload
/// plus checksum, modulo 2^16) in big-endian order, the big-endian FNV-1a of
/// the payload, and the payload.
pub open spec fn frame_plain(d: Seq<u8>) -> Seq<u8> {
    be16(((d.len() + 4) % 65536) as u16) + be32(spec_fnv1a(d)) + d
}

fn header_salt_bytes() -> (v: Vec<u8>)
    ensures
        v@ == header_salt(),
{
    let v: Vec<u8> = vec![
        0x63u8, 0x34, 0x38, 0x36, 0x31, 0x39, 0x66, 0x65, 0x2d, 0x38, 0x66, 0x30, 0x32, 0x2d,
        0x34, 0x39, 0x65, 0x30, 0x2d, 0x62, 0x39, 0x65, 0x39, 0x2d, 0x65, 0x64, 0x66, 0x37,
        0x36, 0x33, 0x65, 0x31, 0x37, 0x65, 0x32, 0x31,
    ];
    assert(v@ =~= header_salt());
    v
}

/// Builds the command section of a request (before encryption).
#[allow(non_snake_case)]
pub fn request_command(key: &[u8; 16], IV: &[u8; 16], addr: &Addr, port: u16) -> (cmd: Vec<u8>)
    ensures
        cmd@ == spec_request_command(key@, IV@, addr@, port),
{
    let mut buffer: Vec<u8> = Vec::new();
    buffer.push(1);
    push_bytes(&mut buffer, IV);
    push_bytes(&mut buffer, key);
    buffer.push(RESPONSE_AUTH);
    buffer.push(1);
    buffer.push(0);
    buffer.push(0);
    buffer.push(1);
    let p = be16_bytes(port);
    push_bytes(&mut buffer, &p);
    match addr {
        Addr::V4(x) => {
            buffer.push(1);
            push_bytes(&mut buffer, x);
        },
        Addr::V6(x) => {
            buffer.push(3);
            push_bytes(&mut buffer, x);
        },
        Addr::Domain(x) => {
            buffer.push(2);
            buffer.push((x.len() % 256) as u8);
            push_bytes(&mut buffer, x.as_slice());
        },
    }
    assert(buffer@ =~= command_body(key@, IV@, addr@, port));
    let f = be32_bytes(fnv1a(buffer.as_slice()));
    push_bytes(&mut buffer, &f);
    buffer
}

/// The length field of a frame whose payload has `n` bytes.
fn frame_len(n: usize) -> (l: u16)
    ensures
        l == ((n + 4) % 65536) as u16,
{
    ((n % 65536 + 4) % 65536) as u16
}

/// The writing half of a VMess connection: the stream cipher that encrypts
/// data frames.
pub struct VmessWriter {
    encoder: AES128CFB,
}

impl View for VmessWriter {
    type V = CfbState;

    closed spec fn view(&self) -> CfbState {
        self.encoder@
    }
}

impl VmessWriter {
    /// A writer for a connection to `addr`:`port` through a VMess server, with
    /// the data key and IV chosen by the client and the current Unix time in
    /// seconds. Returns the writer and the request header to send first.
    #[allow(non_snake_case)]
    pub fn new(
        user_id: [u8; 16],
        addr: Addr,
        port: u16,
        key: [u8; 16],
        IV: [u8; 16],
        time: u64,
    ) -> (r: (VmessWriter, Vec<u8>))
        ensures
            r.0@ == cfb_start(key@, IV@),
            r.1@ == spec_request_header(user_id@, addr@, port, key@, IV@, time),
            hmac_md5(user_id@, be64(time)).len() == 16,
            r.1@.len() == 16 + spec_request_command(key@, IV@, addr@, port).len(),
    {
        let header = Self::handshake(&user_id, &addr, port, &key, &IV, time);
        (VmessWriter { encoder: AES128CFB::new(key, IV) }, header)
    }

    #[allow(non_snake_case)]
    fn handshake(
        user_id: &[u8; 16],
        addr: &Addr,
        port: u16,
        key: &[u8; 16],
        IV: &[u8; 16],
        time: u64,
    ) -> (header: Vec<u8>)
        ensures
            header@ == spec_request_header(user_id@, addr@, port, key@, IV@, time),
            hmac_md5(user_id@, be64(time)).len() == 16,
            header@.len() == 16 + spec_request_command(key@, IV@, addr@, port).len(),
    {
        let t = be64_bytes(time);
        let auth = hmac_md5_digest(user_id, t.as_slice());

        let mut key_input: Vec<u8> = Vec::new();
        push_bytes(&mut key_input, user_id);
        let salt = header_salt_bytes();
        push_bytes(&mut key_input, salt.as_slice());
        let header_key = md5_digest(key_input.as_slice());

        let mut iv_input: Vec<u8> = Vec::new();
        push_bytes(&mut iv_input, t.as_slice());
        push_bytes(&mut iv_input, t.as_slice());
        push_bytes(&mut iv_input, t.as_slice());
        push_bytes(&mut iv_input, t.as_slice());
        let header_iv = md5_digest(iv_input.as_slice());

        let mut command = request_command(key, IV, addr, port);
        let mut cipher = AES128CFB::new(header_key, header_iv);
        proof {
            lemma_cfb_lengths(cipher@, command@);
        }
        cipher.encode(&mut command);

        let mut header: Vec<u8> = Vec::new();
        push_bytes(&mut header, &auth);
        push_bytes(&mut header, command.as_slice());
        header
    }

    /// Frames and encrypts `data`, continuing the stream; an empty `data`
    /// makes the frame that ends the connection.
    pub fn write(&mut self, data: &[u8]) -> (frame: Vec<u8>)
        ensures
            (frame@, final(self)@) == cfb_encrypt(old(self)@, frame_plain(data@)),
    {
        let l = be16_bytes(frame_len(data.len()));
        let f = be32_bytes(fnv1a(data));
        let mut buf: Vec<u8> = Vec::new();
        push_bytes(&mut buf, &l);
        push_bytes(&mut buf, &f);
        push_bytes(&mut buf, data);
        assert(buf@ =~= frame_plain(data@));
        self.encoder.encode(&mut buf);
        buf
    }

    /// The encrypting stream.
    pub fn cipher(&self) -> (c: &AES128CFB)
        ensures
            c@ == self@,
    {
        &self.encoder
    }
}

/// Where the reading half of a connection is in the server's stream.
#[derive(Debug, Clone, Copy, PartialEq, Eq)]
pub enum ReaderPhase {
    /// Awaiting the four-byte response head.
    Head,
    /// Awaiting a response command of this many bytes.
    Command(usize),
    /// Awaiting the two-byte length of the next frame.
    Length,
    /// Awaiting the four-byte checksum of a frame of this length.
    Checksum(usize),
    /// Awaiting this many payload bytes, whose FNV-1a must be this checksum.
    Payload(usize, u32),
}

/// Why the server's stream is refused.
#[derive(Debug, Clone, Copy, PartialEq, Eq)]
pub enum VmessError {
    /// The response head does not start with the response-authentication
    /// byte of the request; it starts with this one.
    ResponseMismatch(u8),
    /// A frame's length is below the four checksum bytes it must hold.
    FrameTooShort(usize),
    /// A frame's payload does not hash to its checksum.
    ChecksumMismatch,
}

/// The model of a reader: its phase and its decrypting stream.
pub struct ReaderModel {
    pub phase: ReaderPhase,
    pub cipher: CfbState,
}

/// How many bytes a phase reads next.
pub open spec fn phase_wants(ph: ReaderPhase) -> nat {
    match ph {
        ReaderPhase::Head => 4,
        ReaderPhase::Command(n) => n as nat,
        ReaderPhase::Length => 2,
        ReaderPhase::Checksum(_) => 4,
        ReaderPhase::Payload(n, _) => n as nat,
    }
}

/// What a phase makes of the decrypted bytes it reads: the next phase, and a
/// payload, nothing yet, or a refusal (after which the phase stays).
pub open spec fn spec_step(ph: ReaderPhase, plain: Seq<u8>) -> (
    ReaderPhase,
    Result<Option<Seq<u8>>, VmessError>,
) {
    match ph {
        ReaderPhase::Head => if plain[0] == RESPONSE_AUTH {
            (ReaderPhase::Command(plain[3] as usize), Ok(None))
        } else {
            (ph, Err(VmessError::ResponseMismatch(plain[0])))
        },
        ReaderPhase::Command(_) => (ReaderPhase::Length, Ok(None)),
        ReaderPhase::Length => (ReaderPhase::Checksum(from_be16(plain[0], plain[1]) as usize), Ok(None)),
        ReaderPhase::Checksum(len) => if len < 4 {
            (ph, Err(VmessError::FrameTooShort(len)))
        } else {
            (ReaderPhase::Payload((len - 4) as usize, from_be32(plain)), Ok(None))
        },
        ReaderPhase::Payload(_, checksum) => if spec_fnv1a(plain) == checksum {
            (ReaderPhase::Length, Ok(Some(plain)))
        } else {
            (ph, Err(VmessError::ChecksumMismatch))
        },
    }
}

/// A reader receiving the bytes its phase asks for: it decrypts them,
/// continuing its stream, and steps its phase on the plaintext.
pub open spec fn spec_receive(m: ReaderModel, bytes: Seq<u8>) -> (
    ReaderModel,
    Result<Option<Seq<u8>>, VmessError>,
) {
    let (plain, c) = cfb_decrypt(m.cipher, bytes);
    let (ph, r) = spec_step(m.phase, plain);
    (ReaderModel { phase: ph, cipher: c }, r)
}

/// The model of what `receive` returns.
pub open spec fn view_received(r: Result<Option<Vec<u8>>, VmessError>) -> Result<
    Option<Seq<u8>>,
    VmessError,
> {
    match r {
        Ok(Some(v)) => Ok(Some(v@)),
        Ok(None) => Ok(None),
        Err(e) => Err(e),
    }
}

/// The reading half of a VMess connection: the decrypting stream and where
/// it is in the server's response.
pub struct VmessReader {
    decoder: AES128CFB,
    phase: ReaderPhase,
}

impl View for VmessReader {
    type V = ReaderModel;

    closed spec fn view(&self) -> ReaderModel {
        ReaderModel { phase: self.phase, cipher: self.decoder@ }
    }
}

impl VmessReader {
    /// A reader for the response to a request made with this data key and
    /// IV: the response stream uses their MD5 digests, and starts with the
    /// response head.
    #[allow(non_snake_case)]
    pub fn new(key: [u8; 16], IV: [u8; 16]) -> (r: VmessReader)
        ensures
            r@ == (ReaderModel { phase: ReaderPhase::Head, cipher: cfb_start(md5(key@), md5(IV@)) }),
    {
        let k = md5_digest(&key);
        let i = md5_digest(&IV);
        VmessReader { decoder: AES128CFB::new(k, i), phase: ReaderPhase::Head }
    }

    /// The phase the reader is in.
    pub fn phase(&self) -> (ph: ReaderPhase)
        ensures
            ph == self@.phase,
    {
        self.phase
    }

    /// How many bytes the reader must be given next.
    pub fn wanted(&self) -> (n: usize)
        ensures
            n == phase_wants(self@.phase),
    {
        match self.phase {
            ReaderPhase::Head => 4,
            ReaderPhase::Command(n) => n,
            ReaderPhase::Length => 2,
            ReaderPhase::Checksum(_) => 4,
            ReaderPhase::Payload(n, _) => n,
        }
    }

    /// Takes exactly the bytes the phase asks for, decrypts them and steps:
    /// `Ok(Some(payload))` when a frame is complete and its checksum holds,
    /// `Ok(None)` when more is to come, an error when the stream is refused.
    pub fn receive(&mut self, bytes: &[u8]) -> (r: Result<Option<Vec<u8>>, VmessError>)
        requires
            bytes@.len() == phase_wants(old(self)@.phase),
        ensures
            (final(self)@, view_received(r)) == spec_receive(old(self)@, bytes@),
    {
        let mut plain = copy_all(bytes);
        self.decoder.decode(&mut plain);
        proof {
            lemma_cfb_lengths(old(self)@.cipher, bytes@);
        }
        match self.phase {
            ReaderPhase::Head => {
                if plain[0] == RESPONSE_AUTH {
                    self.phase = ReaderPhase::Command(plain[3] as usize);
                    Ok(None)
                } else {
                    Err(VmessError::ResponseMismatch(plain[0]))
                }
            },
            ReaderPhase::Command(_) => {
                self.phase = ReaderPhase::Length;
                Ok(None)
            },
            ReaderPhase::Length => {
                let len = (plain[0] as u16) * 256 + (plain[1] as u16);
                self.phase = ReaderPhase::Checksum(len as usize);
                Ok(None)
            },
            ReaderPhase::Checksum(len) => {
                if len < 4 {
                    Err(VmessError::FrameTooShort(len))
                } else {
                    let checksum = (plain[0] as u32) * 0x100_0000 + (plain[1] as u32) * 0x1_0000
                        + (plain[2] as u32) * 256 + (plain[3] as u32);
                    self.phase = ReaderPhase::Payload(len - 4, checksum);
                    Ok(None)
                }
            },
            ReaderPhase::Payload(_, checksum) => {
                if fnv1a(plain.as_slice()) == checksum {
                    self.phase = ReaderPhase::Length;
                    Ok(Some(plain))
                } else {
                    Err(VmessError::ChecksumMismatch)
                }
            },
        }
    }

    /// The decrypting stream.
    pub fn cipher(&self) -> (c: &AES128CFB)
        ensures
            c@ == self@.cipher,
    {
        &self.decoder
    }
}

fn copy_all(s: &[u8]) -> (v: Vec<u8>)
    ensures
        v@ == s@,
{
    let mut v: Vec<u8> = Vec::new();
    push_bytes(&mut v, s);
    v
}

/// What the writer writes, the reader reads: when the reader's stream is
/// where the writer's is and it awaits a frame length, feeding it a frame
/// the writer made, in the pieces it asks for, yields exactly the payload,
/// and leaves both streams in the same state again. (Payloads longer than
/// 65531 bytes do not fit the length field.)
pub proof fn lemma_frame_roundtrip(w: CfbState, d: Seq<u8>)
    requires
        d.len() + 4 < 65536,
    ensures
        ({
            let (frame, w2) = cfb_encrypt(w, frame_plain(d));
            let m0 = ReaderModel { phase: ReaderPhase::Length, cipher: w };
            let r1 = spec_receive(m0, frame.subrange(0, 2));
            let r2 = spec_receive(r1.0, frame.subrange(2, 6));
            let r3 = spec_receive(r2.0, frame.subrange(6, frame.len() as int));
            &&& frame.len() == d.len() + 6
            &&& phase_wants(m0.phase) == 2
            &&& r1.1 == Ok::<Option<Seq<u8>>, VmessError>(None)
            &&& phase_wants(r1.0.phase) == 4
            &&& r2.1 == Ok::<Option<Seq<u8>>, VmessError>(None)
            &&& phase_wants(r2.0.phase) == d.len()
            &&& r3.1 == Ok::<Option<Seq<u8>>, VmessError>(Some(d))
            &&& r3.0 == (ReaderModel { phase: ReaderPhase::Length, cipher: w2 })
        }),
{
    let a = be16(((d.len() + 4) % 65536) as u16);
    let b = be32(spec_fnv1a(d));
    assert(frame_plain(d) == (a + b) + d);
    lemma_encrypt_split(w, a + b, d);
    lemma_encrypt_split(w, a, b);
    let (ea, sa) = cfb_encrypt(w, a);
    let (eb, sb) = cfb_encrypt(sa, b);
    let (ed, sd) = cfb_encrypt(sb, d);
    lemma_cfb_lengths(w, a);
    lemma_cfb_lengths(sa, b);
    lemma_cfb_lengths(sb, d);
    let frame = cfb_encrypt(w, frame_plain(d)).0;
    assert(frame == ea + eb + ed);
    assert(frame.subrange(0, 2) =~= ea);
    assert(frame.subrange(2, 6) =~= eb);
    assert(frame.subrange(6, frame.len() as int) =~= ed);
    lemma_decrypt_encrypt(w, a);
    lemma_decrypt_encrypt(sa, b);
    lemma_decrypt_encrypt(sb, d);
    lemma_be16_roundtrip(((d.len() + 4) % 65536) as u16);
    lemma_be32_roundtrip(spec_fnv1a(d));
}

/// The command section a request carries is recovered by decrypting the
/// header after its authentication code with the header stream,
/// and it ends with the big-endian FNV-1a of the rest of it; its byte at
/// offset 33 is the response-authentication byte that a reader demands at
/// the start of the response.
pub proof fn lemma_request_command_recoverable(
    user_id: Seq<u8>,
    a: SpecAddr,
    port: u16,
    key: Seq<u8>,
    iv: Seq<u8>,
    time: u64,
)
    ensures
        ({
            let header = spec_request_header(user_id, a, port, key, iv, time);
            let auth_len = hmac_md5(user_id, be64(time)).len() as int;
            let cmd = cfb_decrypt(header_cipher(user_id, time), header.subrange(auth_len, header.len() as int)).0;
            &&& cmd == spec_request_command(key, iv, a, port)
            &&& (iv.len() == 16 && key.len() == 16 ==> cmd[33] == RESPONSE_AUTH)
            &&& cmd.subrange(cmd.len() - 4, cmd.len() as int) == be32(
                spec_fnv1a(cmd.subrange(0, cmd.len() - 4)),
            )
        }),
{
    let header = spec_request_header(user_id, a, port, key, iv, time);
    let command = spec_request_command(key, iv, a, port);
    let body = command_body(key, iv, a, port);
    let auth_len = hmac_md5(user_id, be64(time)).len() as int;
    assert(header.subrange(auth_len, header.len() as int) =~= cfb_encrypt(header_cipher(user_id, time), command).0);
    lemma_decrypt_encrypt(header_cipher(user_id, time), command);
    assert(command.subrange(0, command.len() - 4) =~= body);
    assert(command.subrange(command.len() - 4, command.len() as int) =~= be32(spec_fnv1a(body)));
}

/// The layout of the command section, byte by byte: version 1, the IV, the
/// key, the response-authentication byte, option 1, zero security and
/// reserved bytes, command 1, the port (big-endian), the address type (IPv4
/// 1, domain 2, IPv6 3) followed by exactly the destination's bytes in order
/// (a domain with its length first), and last the big-endian FNV-1a of
/// everything before it.
pub proof fn lemma_request_command_layout(key: Seq<u8>, iv: Seq<u8>, a: SpecAddr, port: u16)
    requires
        key.len() == 16,
        iv.len() == 16,
        a.fits_wire(),
    ensures
        ({
            let cmd = spec_request_command(key, iv, a, port);
            let x = a.bytes();
            let start: int = match a {
                SpecAddr::Domain(_) => 42,
                _ => 41,
            };
            let end = start + x.len();
            &&& cmd.len() == end + 4
            &&& cmd[0] == 1u8
            &&& cmd.subrange(1, 17) == iv
            &&& cmd.subrange(17, 33) == key
            &&& cmd[33] == 39u8 && cmd[34] == 1u8 && cmd[35] == 0u8 && cmd[36] == 0u8 && cmd[37] == 1u8
            &&& cmd[38] * 256 + cmd[39] == port
            &&& cmd[40] == (match a {
                SpecAddr::V4(_) => 1u8,
                SpecAddr::Domain(_) => 2u8,
                SpecAddr::V6(_) => 3u8,
            })
            &&& (a is Domain ==> cmd[41] == x.len())
            &&& cmd.subrange(start, end) == x
            &&& from_be32(cmd.subrange(end, end + 4)) == spec_fnv1a(cmd.subrange(0, end))
        }),
{
    let cmd = spec_request_command(key, iv, a, port);
    let body = command_body(key, iv, a, port);
    let x = a.bytes();
    let start: int = match a {
        SpecAddr::Domain(_) => 42,
        _ => 41,
    };
    let end = start + x.len();
    assert(body.len() == end);
    assert(cmd.subrange(1, 17) =~= iv);
    assert(cmd.subrange(17, 33) =~= key);
    assert(cmd.subrange(start, end) =~= x);
    assert(cmd.subrange(0, end) =~= body);
    assert(cmd.subrange(end, end + 4) =~= be32(spec_fnv1a(body)));
    lemma_be32_roundtrip(spec_fnv1a(body));
}

/// The header is keyed by the same eight bytes throughout: the
/// authentication code is HMAC-MD5 under the user id of the time's eight
/// big-endian bytes, and the command section is encrypted from key
/// MD5(user id ++ salt) with IV the MD5 of those same eight bytes repeated
/// four times.
pub proof fn lemma_request_header_time_bytes(
    user_id: Seq<u8>,
    a: SpecAddr,
    port: u16,
    key: Seq<u8>,
    iv: Seq<u8>,
    time: u64,
)
    ensures
        ({
            let t = be64(time);
            &&& t == digits64(time)
            &&& spec_request_header(user_id, a, port, key, iv, time) == hmac_md5(user_id, t)
                + cfb_encrypt(
                cfb_start(md5(user_id + header_salt()), md5(t + t + t + t)),
                spec_request_command(key, iv, a, port),
            ).0
        }),
{
    lemma_be64_digits(time);
}

} // verus!
