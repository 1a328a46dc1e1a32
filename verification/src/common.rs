//! Identifier types and sizes shared by every module.

use vstd::prelude::*;

verus! {

/// Identifies a tenant. Assigned out of band and unique across the server.
pub type UserId = u32;

/// Identifies a table inside one tenant's namespace.
pub type TableId = u64;

/// Number of bytes in the transport header that precedes every request and
/// response.
pub const PACKET_UDP_LEN: u16 = 8;

} // verus!
