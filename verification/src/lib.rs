//! Configuration and monitoring of WireGuard interfaces over Netlink.
//!
//! The crate is a codec and a set of session state machines: it builds the
//! bytes of a request, and it reads the bytes of a reply. It performs no I/O
//! itself; the caller owns the sockets and moves datagrams in and out.
#![allow(non_camel_case_types)]
#![allow(non_upper_case_globals)]

pub mod netlink;
pub mod wireguard;
