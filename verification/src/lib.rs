//! Core of a UDP voice relay: wire-format codec for the client datagram
//! header, the session table that binds a client-supplied secret to a live
//! forwarding session, and the decision logic of the dispatch and relay
//! loops. All socket work lives outside this crate; everything here is pure
//! logic over plain values.

pub mod bytes;
pub mod packet;
pub mod ping;
pub mod proxy;
pub mod session;
