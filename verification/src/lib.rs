//! Core of a D-Bus client and server library.
//!
//! - The wire codec: alignment ([`align`]), byte order ([`endian`]), the
//!   types of fixed size ([`basic`]), strings, object paths and signatures
//!   ([`string`]), arrays ([`array`]), structures and variants
//!   ([`container`]), and the grammar of signatures ([`signature`]).
//! - Messages ([`message`]) and their wire form ([`wire`]).
//! - Addresses of buses ([`address`]) and the authentication dialogue
//!   ([`auth`]).
//! - The buffers between messages and the socket ([`raw`]) and the
//!   decisions of a connection ([`connection`]): serial numbers, what may
//!   be sent, which message answers which call, what waits in the queue.
//! - The generator of typed proxy traits ([`gen`]).
//!
//! Everything here is pure: sockets, readiness and scheduling are left to
//! the caller, which feeds events in and carries actions out.

pub mod address;
pub mod align;
pub mod array;
pub mod auth;
pub mod basic;
pub mod connection;
pub mod container;
pub mod endian;
pub mod error;
pub mod gen;
pub mod message;
pub mod raw;
pub mod signature;
pub mod string;
pub mod text;
pub mod wire;
