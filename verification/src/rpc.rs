//! Reading the parts of a request that every handler needs.

use crate::packet::Packet;
use crate::wireformat::OpCode;
use vstd::prelude::*;
use vstd::utf8::decode_utf8;
use vstd::utf8::valid_utf8;

verus! {

/// The opcode that a request carries in the first byte after the transport
/// header. A request with no such byte asks for nothing this server knows.
pub open spec fn spec_parse_rpc_opcode(rpc: Seq<u8>) -> OpCode {
    if rpc.len() == 0 {
        OpCode::InvalidOperation
    } else {
        OpCode::spec_from_byte(rpc[0])
    }
}

/// Reads the opcode of a request whose cursor stands on the transport header.
pub fn parse_rpc_opcode(request: &Packet) -> (op: OpCode)
    requires
        request.wf(),
    ensures
        op == spec_parse_rpc_opcode(request@.payload_bytes()),
{
    let payload = request.get_payload();
    if payload.len() == 0 {
        OpCode::InvalidOperation
    } else {
        OpCode::from_byte(payload[0])
    }
}

/// `String::from_utf8`: the bytes become a string exactly when they are
/// well-formed UTF-8, and the string then holds the characters that they
/// encode.
#[verifier::external_body]
pub(crate) fn string_from_utf8(bytes: Vec<u8>) -> (decoded: Option<String>)
    ensures
        decoded is Some <==> valid_utf8(bytes@),
        decoded matches Some(s) ==> s@ == decode_utf8(bytes@),
{
    match String::from_utf8(bytes) {
        Ok(s) => Some(s),
        Err(_) => None,
    }
}

} // verus!
