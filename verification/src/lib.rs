//! Core of a small `ping` utility: ICMP Echo Request construction (with the
//! Internet checksum), literal address parsing, reply classification, and
//! round statistics. Sockets, timers and printing live outside the library
//! and feed it plain values.

pub mod cli;
pub mod ping;
pub mod utils;
