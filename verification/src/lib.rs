//! Core of a connectionless rendezvous service for NAT hole-punching
//! assistance. Clients announce themselves in JSON datagrams; the service
//! tracks registered sessions by a self-asserted identifier together with the
//! network address each registration was actually observed from, and, once at
//! least two sessions exist, tells pairs of clients each other's observed
//! address.
//!
//! The library is pure logic: it decodes and encodes wire messages, keeps the
//! session registry, and decides which datagrams to send back. All socket I/O
//! stays with the caller, which feeds inbound datagrams in and transmits the
//! returned replies.

pub mod endpoint;
pub mod msg;
pub mod codec;
pub mod registry;
pub mod handler;
