# v2socks

A SOCKS5 server front end and a VMess (v2ray) client, written as a verified
library and a thin program around it.

- `src/` is the library, verified by Verus:
  - `addr.rs`: destination addresses and big-endian byte helpers;
  - `socks.rs`: incremental parsers for the SOCKS5 greeting and CONNECT
    request, and the reply encoder, with their round-trip and
    prefix-stability laws;
  - `fnv.rs`: the FNV-1a checksum;
  - `cfb.rs`: the AES-128-CFB stream, its model, and the laws that decryption
    undoes encryption and that the stream may be fed in pieces;
  - `primitives.rs`: the calls into `rust-crypto` (AES block, MD5, HMAC-MD5);
  - `vmess.rs`: the request header, the frame writer and the response
    reader, with the law that frames written are read back;
  - `uid.rs`: parsing a user id from its hexadecimal text.
- `app/` is the program: sockets, threads, the clock and random keys.
- `tests/` runs the library on concrete values.
