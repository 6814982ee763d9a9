//! Verified core of a session keep-alive service: protobuf and Connect wire
//! codecs, the local gateway's HTTP request handling, trajectory inspection,
//! retry policy and batch bookkeeping.
pub mod proto;
pub mod handshake;
pub mod connect;
pub mod digits;
pub mod http;
pub mod text;
pub mod response;
pub mod companion;
pub mod transport;
pub mod model;
pub mod json;
pub mod trajectory;
pub mod bridge;
pub mod gateway;
pub mod verification;
pub mod catalog;
pub mod legacy;
pub mod session;
