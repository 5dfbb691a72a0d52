use v2socks::addr::Addr;
use v2socks::cfb::AES128CFB;
use v2socks::fnv::fnv1a;
use v2socks::vmess::{request_command, ReaderPhase, VmessError, VmessReader, VmessWriter};

fn key() -> [u8; 16] {
    let mut k = [0u8; 16];
    for (i, b) in k.iter_mut().enumerate() {
        *b = i as u8;
    }
    k
}

fn iv() -> [u8; 16] {
    let mut k = [0u8; 16];
    for (i, b) in k.iter_mut().enumerate() {
        *b = 16 + i as u8;
    }
    k
}

const UID: [u8; 16] = [
    0x49, 0xaa, 0x7c, 0x07, 0x2c, 0xd4, 0x45, 0x85, 0xb6, 0x45, 0x33, 0x92, 0xfd, 0xe4, 0x5b, 0x90,
];

#[test]
fn command_section_layout() {
    let cmd = request_command(&key(), &iv(), &Addr::Domain(b"example.com".to_vec()), 443);
    let expected: Vec<u8> = vec![
        1, 16, 17, 18, 19, 20, 21, 22, 23, 24, 25, 26, 27, 28, 29, 30, 31, 0, 1, 2, 3, 4, 5, 6, 7,
        8, 9, 10, 11, 12, 13, 14, 15, 39, 1, 0, 0, 1, 1, 187, 2, 11, 101, 120, 97, 109, 112, 108,
        101, 46, 99, 111, 109, 236, 161, 136, 25,
    ];
    assert_eq!(cmd, expected);
    let n = cmd.len();
    assert_eq!(fnv1a(&cmd[..n - 4]).to_be_bytes(), [cmd[n - 4], cmd[n - 3], cmd[n - 2], cmd[n - 1]]);
}

#[test]
fn command_section_address_kinds() {
    let v4 = request_command(&key(), &iv(), &Addr::V4([1, 2, 3, 4]), 80);
    assert_eq!(&v4[38..45], &[0, 80, 1, 1, 2, 3, 4]);
    assert_eq!(v4.len(), 45 + 4);
    let v6 = request_command(&key(), &iv(), &Addr::V6([9; 16]), 80);
    assert_eq!(v6[40], 3);
    assert_eq!(v6.len(), 41 + 16 + 4);
}

#[test]
fn request_header_known_value() {
    let (writer, header) =
        VmessWriter::new(UID, Addr::Domain(b"example.com".to_vec()), 443, key(), iv(), 1700000000);
    let expected: Vec<u8> = vec![
        32, 149, 192, 207, 74, 102, 52, 11, 237, 51, 223, 97, 235, 90, 101, 240, 77, 252, 92, 70,
        204, 88, 124, 120, 160, 122, 29, 138, 191, 55, 60, 255, 77, 205, 213, 200, 173, 253, 86,
        180, 136, 62, 178, 231, 118, 221, 226, 90, 179, 129, 196, 107, 78, 249, 72, 76, 151, 194,
        219, 86, 32, 153, 139, 56, 182, 2, 94, 201, 54, 78, 19, 29, 99,
    ];
    assert_eq!(header, expected);
    assert_eq!(writer.cipher().key(), key());
    assert_eq!(writer.cipher().register(), iv());
}

#[test]
fn writer_frame_known_value() {
    let (mut writer, _) = VmessWriter::new(UID, Addr::V4([1, 1, 1, 1]), 53, key(), iv(), 0);
    let frame = writer.write(b"hello");
    assert_eq!(frame, vec![7, 247, 160, 235, 205, 126, 107, 11, 252, 98, 129]);
}

#[test]
fn reader_stream_uses_digests_of_key_and_iv() {
    let r = VmessReader::new(key(), iv());
    assert_eq!(r.cipher().key(), [26, 193, 239, 1, 233, 108, 175, 27, 224, 211, 41, 51, 26, 79, 194, 168]);
    assert_eq!(r.cipher().register(), [27, 244, 46, 36, 24, 22, 186, 41, 255, 95, 48, 123, 177, 188, 29, 22]);
    assert_eq!(r.phase(), ReaderPhase::Head);
    assert_eq!(r.wanted(), 4);
}

fn feed(r: &mut VmessReader, stream: &[u8], pos: &mut usize) -> Result<Option<Vec<u8>>, VmessError> {
    let n = r.wanted();
    let out = r.receive(&stream[*pos..*pos + n]);
    *pos += n;
    out
}

#[test]
fn reader_decodes_a_server_response() {
    // head [39, 0, 0, 0] and one frame carrying "world", encrypted with the
    // digests of the data key and IV.
    let stream = [162u8, 157, 43, 39, 103, 97, 5, 34, 141, 236, 56, 63, 204, 11, 242];
    let mut r = VmessReader::new(key(), iv());
    let mut pos = 0;
    assert_eq!(feed(&mut r, &stream, &mut pos), Ok(None));
    assert_eq!(r.phase(), ReaderPhase::Command(0));
    assert_eq!(feed(&mut r, &stream, &mut pos), Ok(None));
    assert_eq!(r.phase(), ReaderPhase::Length);
    assert_eq!(feed(&mut r, &stream, &mut pos), Ok(None));
    assert_eq!(r.phase(), ReaderPhase::Checksum(9));
    assert_eq!(feed(&mut r, &stream, &mut pos), Ok(None));
    assert_eq!(r.phase(), ReaderPhase::Payload(5, fnv1a(b"world")));
    assert_eq!(feed(&mut r, &stream, &mut pos), Ok(Some(b"world".to_vec())));
    assert_eq!(r.phase(), ReaderPhase::Length);
    assert_eq!(pos, stream.len());
}

#[test]
fn reader_refuses_wrong_head() {
    let stream = [162u8 ^ 1, 157, 43, 39];
    let mut r = VmessReader::new(key(), iv());
    assert_eq!(r.receive(&stream), Err(VmessError::ResponseMismatch(38)));
    assert_eq!(r.phase(), ReaderPhase::Head);
}

fn frame_plain(data: &[u8]) -> Vec<u8> {
    let mut f = Vec::new();
    f.extend_from_slice(&((data.len() + 4) as u16).to_be_bytes());
    f.extend_from_slice(&fnv1a(data).to_be_bytes());
    f.extend_from_slice(data);
    f
}

#[test]
fn writer_frames_are_length_checksum_payload() {
    let (mut w, _) = VmessWriter::new(UID, Addr::V4([0; 4]), 0, key(), iv(), 0);
    let mut c = AES128CFB::new(key(), iv());
    for data in [&b"first"[..], &[], &[7u8; 300][..]] {
        let mut expected = frame_plain(data);
        c.encode(&mut expected);
        assert_eq!(w.write(data), expected);
    }
    assert_eq!(w.cipher().register(), c.register());
}

#[test]
fn frames_in_the_reader_stream_are_read_back() {
    let mut r = VmessReader::new(key(), iv());
    let mut server = AES128CFB::new(r.cipher().key(), r.cipher().register());
    let mut stream = vec![39u8, 0, 0, 2, 0xaa, 0xbb];
    for data in [&b"one"[..], &b""[..], &[1u8; 1000][..]] {
        stream.extend_from_slice(&frame_plain(data));
    }
    server.encode(&mut stream);

    let mut pos = 0;
    assert_eq!(feed(&mut r, &stream, &mut pos), Ok(None));
    assert_eq!(r.phase(), ReaderPhase::Command(2));
    assert_eq!(feed(&mut r, &stream, &mut pos), Ok(None));
    let mut got = Vec::new();
    while pos < stream.len() {
        if let Some(d) = feed(&mut r, &stream, &mut pos).unwrap() {
            got.push(d);
        }
    }
    assert_eq!(got, vec![b"one".to_vec(), Vec::new(), vec![1u8; 1000]]);
    assert_eq!(r.phase(), ReaderPhase::Length);
    assert_eq!(r.cipher().register(), server.register());
}

#[test]
fn reader_refuses_short_frame() {
    let mut r = VmessReader::new(key(), iv());
    let mut server = AES128CFB::new(r.cipher().key(), r.cipher().register());
    let mut stream = vec![39u8, 0, 0, 0, 0, 3, 0, 0, 0, 0];
    server.encode(&mut stream);
    let mut pos = 0;
    assert_eq!(feed(&mut r, &stream, &mut pos), Ok(None));
    assert_eq!(feed(&mut r, &stream, &mut pos), Ok(None));
    assert_eq!(feed(&mut r, &stream, &mut pos), Ok(None));
    assert_eq!(feed(&mut r, &stream, &mut pos), Err(VmessError::FrameTooShort(3)));
}

#[test]
fn reader_refuses_bad_checksum() {
    let mut r = VmessReader::new(key(), iv());
    let mut server = AES128CFB::new(r.cipher().key(), r.cipher().register());
    let mut stream = vec![39u8, 0, 0, 0];
    let mut f = frame_plain(b"data");
    f[5] ^= 1;
    stream.extend_from_slice(&f);
    server.encode(&mut stream);
    let mut pos = 0;
    for _ in 0..4 {
        assert_eq!(feed(&mut r, &stream, &mut pos), Ok(None));
    }
    assert_eq!(feed(&mut r, &stream, &mut pos), Err(VmessError::ChecksumMismatch));
}

#[test]
fn request_command_is_recovered_from_header() {
    let addr = Addr::Domain(b"example.com".to_vec());
    let (_, header) = VmessWriter::new(UID, addr.clone(), 443, key(), iv(), 1700000000);
    // MD5(user id ++ salt) and MD5 of the time repeated four times.
    let header_key = [249, 35, 242, 246, 178, 234, 11, 133, 94, 168, 78, 74, 32, 127, 103, 31];
    let header_iv = [122, 41, 215, 189, 201, 114, 170, 239, 177, 245, 78, 82, 5, 88, 158, 120];
    let mut c = AES128CFB::new(header_key, header_iv);
    let mut cmd = header[16..].to_vec();
    c.decode(&mut cmd);
    assert_eq!(cmd, request_command(&key(), &iv(), &addr, 443));
    assert_eq!(cmd[33], v2socks::vmess::RESPONSE_AUTH);
}

#[test]
fn header_length_is_auth_plus_command() {
    let mut v6 = [0u8; 16];
    v6[15] = 1;
    let (_, header) = VmessWriter::new([0; 16], Addr::V6(v6), 80, [0; 16], [0; 16], 12345);
    assert_eq!(header.len(), 77);
    let (_, header) = VmessWriter::new([0; 16], Addr::V4([1, 2, 3, 4]), 80, [0; 16], [0; 16], 0);
    assert_eq!(header.len(), 65);
    let (_, header) = VmessWriter::new([0; 16], Addr::Domain(b"abc".to_vec()), 80, [0; 16], [0; 16], 0);
    assert_eq!(header.len(), 62 + 3);
}
