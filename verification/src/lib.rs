//! Request-processing core of a multi-tenant storage and compute server.
//!
//! An inbound request arrives in a [`packet::Packet`] whose cursor stands at the
//! transport header. [`master::Master::dispatch`] reads the opcode, interprets
//! the request header, performs a tenant-scoped lookup or invokes a named
//! extension, and builds the response in place inside a second packet.
//!
//! - [`wireformat`]: the fixed-layout headers and their byte encoding.
//! - [`packet`]: the wire buffer with its header cursor.
//! - [`table`]: the key/value store of one table.
//! - [`ext`]: extensions and the manager that binds and calls them.
//! - [`rpc`]: reading the opcode of a request.
//! - [`master`]: the tenant registry, its handlers and the dispatcher.
//! - [`model`]: what the handlers compute, as mathematics, and the laws that
//!   follow.
//! - [`buf`]: what is assumed of the `bytes` crate.
//! - [`common`]: identifiers and sizes.

pub mod buf;
pub mod common;
pub mod ext;
pub mod master;
pub mod model;
pub mod packet;
pub mod rpc;
pub mod table;
pub mod wireformat;
