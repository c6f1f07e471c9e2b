//! A forwarding DNS server library: wire codec, answer cache, authority
//! table, request pipeline and the per-request state machine.

pub mod byte_utils;
pub mod text;
pub mod clock;
pub mod bit_cursor;
pub mod dns_packet;
pub mod mut_dns_packet;
pub mod message;
pub mod codec;
pub mod wire_laws;
pub mod cache;
pub mod authority;
pub mod request;
pub mod pipeline;
pub mod server;
