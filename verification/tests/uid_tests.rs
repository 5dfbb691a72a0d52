use v2socks::uid::parse_uid;

#[test]
fn uid_with_dashes() {
    assert_eq!(
        parse_uid(b"49aa7c07-2cd4-4585-b645-3392fde45b90"),
        Some([0x49, 0xaa, 0x7c, 0x07, 0x2c, 0xd4, 0x45, 0x85, 0xb6, 0x45, 0x33, 0x92, 0xfd, 0xe4, 0x5b, 0x90])
    );
}

#[test]
fn uid_dashes_anywhere_and_case() {
    assert_eq!(
        parse_uid(b"49AA7C072CD44585B6453392FDE45B90"),
        parse_uid(b"--49aa7c07-2cd44585b6453392-fde45b90-")
    );
    assert!(parse_uid(b"49aa7c072cd44585b6453392fde45b90").is_some());
}

#[test]
fn uid_extra_text_is_ignored() {
    assert_eq!(
        parse_uid(b"000102030405060708090a0b0c0d0e0fzz"),
        Some([0, 1, 2, 3, 4, 5, 6, 7, 8, 9, 10, 11, 12, 13, 14, 15])
    );
}

#[test]
fn uid_plus_sign_pair() {
    let mut s = b"+f0102030405060708090a0b0c0d0e0f".to_vec();
    assert_eq!(parse_uid(&s).unwrap()[0], 15);
    s[1] = b'+';
    assert_eq!(parse_uid(&s), None);
}

#[test]
fn uid_rejects_short_or_non_hex() {
    assert_eq!(parse_uid(b"49aa7c07-2cd4-4585-b645-3392fde45b9"), None);
    assert_eq!(parse_uid(b"g9aa7c07-2cd4-4585-b645-3392fde45b90"), None);
    assert_eq!(parse_uid(b""), None);
}
