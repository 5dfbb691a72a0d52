//! A SOCKS5 server front end and a VMess (v2ray) client, as sans-I/O logic:
//! the parsers, encoders and cipher state machines are here; sockets, threads,
//! clocks and randomness belong to the caller.

pub mod addr;
pub mod fnv;
pub mod primitives;
pub mod cfb;
pub mod socks;
pub mod vmess;
pub mod uid;
