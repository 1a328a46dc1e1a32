//! Fixed-layout headers of the RPC wire format.
//!
//! Every request and response starts with the same six-byte common header:
//!
//! | offset | size | field                      |
//! |--------|------|----------------------------|
//! | 0      | 1    | opcode                     |
//! | 1      | 4    | tenant, little endian      |
//! | 5      | 1    | status (responses only)    |
//!
//! The fields of each RPC kind follow it, all little endian. Requests reserve
//! the status byte and ignore what it holds.

use vstd::prelude::*;

verus! {

/// The number that `bytes` spell in little-endian order.
pub open spec fn le_value(bytes: Seq<u8>) -> nat
    decreases bytes.len(),
{
    if bytes.len() == 0 {
        0
    } else {
        bytes[0] as nat + 256 * le_value(bytes.drop_first())
    }
}

/// The `width` low-order bytes of `value`, least significant first.
pub open spec fn le_bytes(value: nat, width: nat) -> Seq<u8>
    decreases width,
{
    if width == 0 {
        Seq::empty()
    } else {
        seq![(value % 256) as u8] + le_bytes(value / 256, (width - 1) as nat)
    }
}

/// 256 raised to `width`: one more than the largest number that `width` bytes
/// can spell.
pub open spec fn radix(width: nat) -> nat
    decreases width,
{
    if width == 0 {
        1
    } else {
        256 * radix((width - 1) as nat)
    }
}

/// A little-endian number is below the radix of its width.
pub proof fn lemma_le_value_bound(bytes: Seq<u8>)
    ensures
        le_value(bytes) < radix(bytes.len()),
    decreases bytes.len(),
{
    if bytes.len() > 0 {
        lemma_le_value_bound(bytes.drop_first());
    }
}

/// `le_bytes` yields exactly `width` bytes.
pub proof fn lemma_le_bytes_len(value: nat, width: nat)
    ensures
        le_bytes(value, width).len() == width,
    decreases width,
{
    if width > 0 {
        lemma_le_bytes_len(value / 256, (width - 1) as nat);
    }
}

/// Writing a number that fits in `width` bytes and reading it back gives the
/// number.
pub proof fn lemma_le_value_of_le_bytes(value: nat, width: nat)
    requires
        value < radix(width),
    ensures
        le_value(le_bytes(value, width)) == value,
    decreases width,
{
    if width > 0 {
        let rest = le_bytes(value / 256, (width - 1) as nat);
        lemma_le_value_of_le_bytes(value / 256, (width - 1) as nat);
        lemma_le_bytes_len(value / 256, (width - 1) as nat);
        let all = le_bytes(value, width);
        assert(all.drop_first() =~= rest);
        assert(all[0] == (value % 256) as u8);
    }
}

/// Reading bytes as a number and writing it back at the same width gives the
/// bytes.
pub proof fn lemma_le_bytes_of_le_value(bytes: Seq<u8>)
    ensures
        le_bytes(le_value(bytes), bytes.len()) == bytes,
    decreases bytes.len(),
{
    if bytes.len() > 0 {
        let rest = bytes.drop_first();
        lemma_le_bytes_of_le_value(rest);
        let v = le_value(bytes);
        assert(v % 256 == bytes[0] as nat);
        assert(v / 256 == le_value(rest));
        assert(le_bytes(v, bytes.len()) =~= bytes);
    } else {
        assert(le_bytes(le_value(bytes), bytes.len()) =~= bytes);
    }
}

/// Reads up to eight bytes as a little-endian number.
pub fn decode_le(bytes: &[u8]) -> (value: u64)
    requires
        bytes@.len() <= 8,
    ensures
        value == le_value(bytes@),
{
    let mut value: u64 = 0;
    let mut i: usize = bytes.len();
    proof {
        assert(bytes@.subrange(i as int, bytes@.len() as int) =~= Seq::<u8>::empty());
        reveal_with_fuel(radix, 9);
    }
    while i > 0
        invariant
            i <= bytes@.len() <= 8,
            value == le_value(bytes@.subrange(i as int, bytes@.len() as int)),
        decreases i,
    {
        let ghost tail = bytes@.subrange(i as int, bytes@.len() as int);
        proof {
            lemma_le_value_bound(tail);
            reveal_with_fuel(radix, 9);
            assert(bytes@.subrange(i - 1, bytes@.len() as int).drop_first() =~= tail);
        }
        i = i - 1;
        value = value * 256 + bytes[i] as u64;
    }
    proof {
        assert(bytes@.subrange(0, bytes@.len() as int) =~= bytes@);
    }
    value
}

/// Appends the `width` low-order bytes of `value` to `out`, least significant
/// first.
pub fn encode_le(value: u64, width: usize, out: &mut Vec<u8>)
    requires
        width <= 8,
    ensures
        final(out)@ == old(out)@ + le_bytes(value as nat, width as nat),
{
    let mut rest: u64 = value;
    let mut i: usize = 0;
    let ghost start = out@;
    proof {
        assert(out@ =~= start + Seq::<u8>::empty());
    }
    while i < width
        invariant
            i <= width <= 8,
            out@.len() == start.len() + i,
            start + le_bytes(value as nat, width as nat) == out@ + le_bytes(
                rest as nat,
                (width - i) as nat,
            ),
        decreases width - i,
    {
        let ghost before = out@;
        let low: u8 = (rest % 256) as u8;
        out.push(low);
        proof {
            let remaining = le_bytes(rest as nat, (width - i) as nat);
            let next = le_bytes((rest / 256) as nat, (width - i - 1) as nat);
            assert(remaining == seq![low] + next);
            assert(before + remaining =~= before.push(low) + next);
        }
        rest = rest / 256;
        i = i + 1;
    }
    proof {
        assert(le_bytes(rest as nat, 0) =~= Seq::<u8>::empty());
        assert(out@ + Seq::<u8>::empty() =~= out@);
    }
}

/// Size of the common header.
pub const COMMON_HEADER_LEN: usize = 6;

/// Offset of the status byte inside every header.
pub const STATUS_OFFSET: usize = 5;

/// Size of a Get request header.
pub const GET_REQUEST_LEN: usize = 16;

/// Size of a Get response header.
pub const GET_RESPONSE_LEN: usize = 10;

/// Offset of the value length inside a Get response header.
pub const VALUE_LENGTH_OFFSET: usize = 6;

/// Size of an Invoke request header.
pub const INVOKE_REQUEST_LEN: usize = 14;

/// Size of an Invoke response header.
pub const INVOKE_RESPONSE_LEN: usize = 6;

/// The kind of RPC that a request asks for.
#[derive(Clone, Copy, Debug, PartialEq, Eq, Structural)]
pub enum OpCode {
    /// Look up one key in one table of the tenant.
    SandstormGetRpc,
    /// Run a named extension on behalf of the tenant.
    SandstormInvokeRpc,
    /// Anything this server does not recognise.
    InvalidOperation,
}

impl OpCode {
    /// The opcode that a wire byte stands for. Every byte other than the two
    /// assigned ones is an invalid operation.
    pub open spec fn spec_from_byte(byte: u8) -> OpCode {
        if byte == 1 {
            OpCode::SandstormGetRpc
        } else if byte == 2 {
            OpCode::SandstormInvokeRpc
        } else {
            OpCode::InvalidOperation
        }
    }

    /// The wire byte of an opcode.
    pub open spec fn spec_to_byte(self) -> u8 {
        match self {
            OpCode::SandstormGetRpc => 1,
            OpCode::SandstormInvokeRpc => 2,
            OpCode::InvalidOperation => 3,
        }
    }

    /// Decodes an opcode from its wire byte.
    pub fn from_byte(byte: u8) -> (op: OpCode)
        ensures
            op == Self::spec_from_byte(byte),
    {
        if byte == 1 {
            OpCode::SandstormGetRpc
        } else if byte == 2 {
            OpCode::SandstormInvokeRpc
        } else {
            OpCode::InvalidOperation
        }
    }

    /// Encodes an opcode as its wire byte.
    pub fn to_byte(self) -> (byte: u8)
        ensures
            byte == self.spec_to_byte(),
    {
        match self {
            OpCode::SandstormGetRpc => 1,
            OpCode::SandstormInvokeRpc => 2,
            OpCode::InvalidOperation => 3,
        }
    }
}

/// The outcome that a response reports.
#[derive(Clone, Copy, Debug, PartialEq, Eq, Structural)]
pub enum RpcStatus {
    /// The request was served.
    StatusOk,
    /// A length field of the request exceeds the bytes that came with it.
    StatusMalformedRequest,
    /// The request names a tenant that this server does not know.
    StatusTenantDoesNotExist,
    /// The tenant has no table with the requested identifier.
    StatusTableDoesNotExist,
    /// The table holds no value under the requested key.
    StatusObjectDoesNotExist,
    /// The response buffer could not take the value.
    StatusInternalError,
}

impl RpcStatus {
    /// The status that a wire byte stands for, if any.
    pub open spec fn spec_from_byte(byte: u8) -> Option<RpcStatus> {
        if byte == 1 {
            Some(RpcStatus::StatusOk)
        } else if byte == 2 {
            Some(RpcStatus::StatusMalformedRequest)
        } else if byte == 3 {
            Some(RpcStatus::StatusTenantDoesNotExist)
        } else if byte == 4 {
            Some(RpcStatus::StatusTableDoesNotExist)
        } else if byte == 5 {
            Some(RpcStatus::StatusObjectDoesNotExist)
        } else if byte == 6 {
            Some(RpcStatus::StatusInternalError)
        } else {
            None
        }
    }

    /// The wire byte of a status.
    pub open spec fn spec_to_byte(self) -> u8 {
        match self {
            RpcStatus::StatusOk => 1,
            RpcStatus::StatusMalformedRequest => 2,
            RpcStatus::StatusTenantDoesNotExist => 3,
            RpcStatus::StatusTableDoesNotExist => 4,
            RpcStatus::StatusObjectDoesNotExist => 5,
            RpcStatus::StatusInternalError => 6,
        }
    }

    /// Decodes a status from its wire byte; `None` for an unassigned byte.
    pub fn from_byte(byte: u8) -> (status: Option<RpcStatus>)
        ensures
            status == Self::spec_from_byte(byte),
    {
        if byte == 1 {
            Some(RpcStatus::StatusOk)
        } else if byte == 2 {
            Some(RpcStatus::StatusMalformedRequest)
        } else if byte == 3 {
            Some(RpcStatus::StatusTenantDoesNotExist)
        } else if byte == 4 {
            Some(RpcStatus::StatusTableDoesNotExist)
        } else if byte == 5 {
            Some(RpcStatus::StatusObjectDoesNotExist)
        } else if byte == 6 {
            Some(RpcStatus::StatusInternalError)
        } else {
            None
        }
    }

    /// Encodes a status as its wire byte.
    pub fn to_byte(self) -> (byte: u8)
        ensures
            byte == self.spec_to_byte(),
    {
        match self {
            RpcStatus::StatusOk => 1,
            RpcStatus::StatusMalformedRequest => 2,
            RpcStatus::StatusTenantDoesNotExist => 3,
            RpcStatus::StatusTableDoesNotExist => 4,
            RpcStatus::StatusObjectDoesNotExist => 5,
            RpcStatus::StatusInternalError => 6,
        }
    }
}

/// Decoding the wire byte of an opcode or a status gives it back.
pub proof fn lemma_code_round_trip(op: OpCode, status: RpcStatus)
    ensures
        OpCode::spec_from_byte(op.spec_to_byte()) == op,
        RpcStatus::spec_from_byte(status.spec_to_byte()) == Some(status),
{
}

/// The common header as a request carries it: the status byte is reserved.
#[derive(Clone, Copy, Debug, PartialEq, Eq, Structural)]
pub struct RpcRequestHeader {
    pub opcode: OpCode,
    pub tenant: u32,
}

impl RpcRequestHeader {
    /// The six bytes of this header on the wire. The reserved byte is zero.
    pub open spec fn encoding(self) -> Seq<u8> {
        seq![self.opcode.spec_to_byte()] + le_bytes(self.tenant as nat, 4) + seq![0u8]
    }

    /// The header that the first six bytes of `bytes` spell.
    pub open spec fn spec_parse(bytes: Seq<u8>) -> RpcRequestHeader
        recommends
            bytes.len() >= COMMON_HEADER_LEN,
    {
        RpcRequestHeader {
            opcode: OpCode::spec_from_byte(bytes[0]),
            tenant: le_value(bytes.subrange(1, 5)) as u32,
        }
    }

    fn parse(bytes: &[u8]) -> (header: RpcRequestHeader)
        requires
            bytes@.len() >= COMMON_HEADER_LEN,
        ensures
            header == Self::spec_parse(bytes@),
    {
        let tenant: u64 = decode_le(&bytes[1..5]);
        proof {
            lemma_le_value_bound(bytes@.subrange(1, 5));
            reveal_with_fuel(radix, 5);
        }
        RpcRequestHeader { opcode: OpCode::from_byte(bytes[0]), tenant: tenant as u32 }
    }

    fn encode_into(&self, out: &mut Vec<u8>)
        ensures
            final(out)@ == old(out)@ + self.encoding(),
    {
        out.push(self.opcode.to_byte());
        encode_le(self.tenant as u64, 4, out);
        out.push(0);
        proof {
            assert(out@ =~= old(out)@ + self.encoding());
        }
    }
}

/// The common header as a response carries it.
#[derive(Clone, Copy, Debug, PartialEq, Eq, Structural)]
pub struct RpcResponseHeader {
    pub opcode: OpCode,
    pub tenant: u32,
    pub status: RpcStatus,
}

impl RpcResponseHeader {
    /// The six bytes of this header on the wire.
    pub open spec fn encoding(self) -> Seq<u8> {
        seq![self.opcode.spec_to_byte()] + le_bytes(self.tenant as nat, 4) + seq![
            self.status.spec_to_byte(),
        ]
    }

    /// The header that the first six bytes of `bytes` spell, if the status
    /// byte is an assigned one.
    pub open spec fn spec_parse(bytes: Seq<u8>) -> Option<RpcResponseHeader>
        recommends
            bytes.len() >= COMMON_HEADER_LEN,
    {
        match RpcStatus::spec_from_byte(bytes[5]) {
            Some(status) => Some(
                RpcResponseHeader {
                    opcode: OpCode::spec_from_byte(bytes[0]),
                    tenant: le_value(bytes.subrange(1, 5)) as u32,
                    status,
                },
            ),
            None => None,
        }
    }

    fn parse(bytes: &[u8]) -> (header: Option<RpcResponseHeader>)
        requires
            bytes@.len() >= COMMON_HEADER_LEN,
        ensures
            header == Self::spec_parse(bytes@),
    {
        let tenant: u64 = decode_le(&bytes[1..5]);
        proof {
            lemma_le_value_bound(bytes@.subrange(1, 5));
            reveal_with_fuel(radix, 5);
        }
        match RpcStatus::from_byte(bytes[5]) {
            Some(status) => Some(
                RpcResponseHeader {
                    opcode: OpCode::from_byte(bytes[0]),
                    tenant: tenant as u32,
                    status,
                },
            ),
            None => None,
        }
    }

    fn encode_into(&self, out: &mut Vec<u8>)
        ensures
            final(out)@ == old(out)@ + self.encoding(),
    {
        out.push(self.opcode.to_byte());
        encode_le(self.tenant as u64, 4, out);
        out.push(self.status.to_byte());
        proof {
            assert(out@ =~= old(out)@ + self.encoding());
        }
    }
}

/// Header of a Get request. The key follows it in the payload.
#[derive(Clone, Copy, Debug, PartialEq, Eq, Structural)]
pub struct GetRequest {
    pub common_header: RpcRequestHeader,
    pub table_id: u64,
    pub key_length: u16,
}

impl GetRequest {
    /// The sixteen bytes of this header on the wire.
    pub open spec fn encoding(self) -> Seq<u8> {
        self.common_header.encoding() + le_bytes(self.table_id as nat, 8) + le_bytes(
            self.key_length as nat,
            2,
        )
    }

    /// The header that `bytes` start with; `None` when they are too few.
    pub open spec fn spec_parse(bytes: Seq<u8>) -> Option<GetRequest> {
        if bytes.len() < GET_REQUEST_LEN {
            None
        } else {
            Some(
                GetRequest {
                    common_header: RpcRequestHeader::spec_parse(bytes),
                    table_id: le_value(bytes.subrange(6, 14)) as u64,
                    key_length: le_value(bytes.subrange(14, 16)) as u16,
                },
            )
        }
    }

    /// Reads a Get request header from the front of `bytes`.
    pub fn parse(bytes: &[u8]) -> (header: Option<GetRequest>)
        ensures
            header == Self::spec_parse(bytes@),
    {
        if bytes.len() < GET_REQUEST_LEN {
            return None;
        }
        let table_id: u64 = decode_le(&bytes[6..14]);
        let key_length: u64 = decode_le(&bytes[14..16]);
        proof {
            lemma_le_value_bound(bytes@.subrange(14, 16));
            reveal_with_fuel(radix, 3);
        }
        Some(
            GetRequest {
                common_header: RpcRequestHeader::parse(bytes),
                table_id,
                key_length: key_length as u16,
            },
        )
    }

    /// Writes this header out as its sixteen wire bytes.
    pub fn encode(&self) -> (bytes: Vec<u8>)
        ensures
            bytes@ == self.encoding(),
    {
        let mut bytes: Vec<u8> = Vec::new();
        self.common_header.encode_into(&mut bytes);
        encode_le(self.table_id, 8, &mut bytes);
        encode_le(self.key_length as u64, 2, &mut bytes);
        proof {
            assert(bytes@ =~= self.encoding());
        }
        bytes
    }
}

/// Header of a Get response. The value follows it in the payload.
#[derive(Clone, Copy, Debug, PartialEq, Eq, Structural)]
pub struct GetResponse {
    pub common_header: RpcResponseHeader,
    pub value_length: u32,
}

impl GetResponse {
    /// The header that a response starts out with.
    pub open spec fn spec_new() -> GetResponse {
        GetResponse {
            common_header: RpcResponseHeader {
                opcode: OpCode::SandstormGetRpc,
                tenant: 0,
                status: RpcStatus::StatusOk,
            },
            value_length: 0,
        }
    }

    /// A header for a Get response that reports success and announces no
    /// value yet.
    pub fn new() -> (header: GetResponse)
        ensures
            header == Self::spec_new(),
    {
        GetResponse {
            common_header: RpcResponseHeader {
                opcode: OpCode::SandstormGetRpc,
                tenant: 0,
                status: RpcStatus::StatusOk,
            },
            value_length: 0,
        }
    }

    /// The ten bytes of this header on the wire.
    pub open spec fn encoding(self) -> Seq<u8> {
        self.common_header.encoding() + le_bytes(self.value_length as nat, 4)
    }

    /// The header that `bytes` start with; `None` when they are too few or
    /// the status byte is not an assigned one.
    pub open spec fn spec_parse(bytes: Seq<u8>) -> Option<GetResponse> {
        if bytes.len() < GET_RESPONSE_LEN {
            None
        } else {
            match RpcResponseHeader::spec_parse(bytes) {
                Some(common_header) => Some(
                    GetResponse {
                        common_header,
                        value_length: le_value(bytes.subrange(6, 10)) as u32,
                    },
                ),
                None => None,
            }
        }
    }

    /// Reads a Get response header from the front of `bytes`.
    pub fn parse(bytes: &[u8]) -> (header: Option<GetResponse>)
        ensures
            header == Self::spec_parse(bytes@),
    {
        if bytes.len() < GET_RESPONSE_LEN {
            return None;
        }
        let value_length: u64 = decode_le(&bytes[6..10]);
        proof {
            lemma_le_value_bound(bytes@.subrange(6, 10));
            reveal_with_fuel(radix, 5);
        }
        match RpcResponseHeader::parse(bytes) {
            Some(common_header) => Some(
                GetResponse { common_header, value_length: value_length as u32 },
            ),
            None => None,
        }
    }

    /// Writes this header out as its ten wire bytes.
    pub fn encode(&self) -> (bytes: Vec<u8>)
        ensures
            bytes@ == self.encoding(),
    {
        let mut bytes: Vec<u8> = Vec::new();
        self.common_header.encode_into(&mut bytes);
        encode_le(self.value_length as u64, 4, &mut bytes);
        proof {
            assert(bytes@ =~= self.encoding());
        }
        bytes
    }
}

/// Header of an Invoke request. The extension's name follows it in the
/// payload, and the argument bytes follow the name.
#[derive(Clone, Copy, Debug, PartialEq, Eq, Structural)]
pub struct InvokeRequest {
    pub common_header: RpcRequestHeader,
    pub name_length: u32,
    pub args_length: u32,
}

impl InvokeRequest {
    /// The fourteen bytes of this header on the wire.
    pub open spec fn encoding(self) -> Seq<u8> {
        self.common_header.encoding() + le_bytes(self.name_length as nat, 4) + le_bytes(
            self.args_length as nat,
            4,
        )
    }

    /// The header that `bytes` start with; `None` when they are too few.
    pub open spec fn spec_parse(bytes: Seq<u8>) -> Option<InvokeRequest> {
        if bytes.len() < INVOKE_REQUEST_LEN {
            None
        } else {
            Some(
                InvokeRequest {
                    common_header: RpcRequestHeader::spec_parse(bytes),
                    name_length: le_value(bytes.subrange(6, 10)) as u32,
                    args_length: le_value(bytes.subrange(10, 14)) as u32,
                },
            )
        }
    }

    /// Reads an Invoke request header from the front of `bytes`.
    pub fn parse(bytes: &[u8]) -> (header: Option<InvokeRequest>)
        ensures
            header == Self::spec_parse(bytes@),
    {
        if bytes.len() < INVOKE_REQUEST_LEN {
            return None;
        }
        let name_length: u64 = decode_le(&bytes[6..10]);
        let args_length: u64 = decode_le(&bytes[10..14]);
        proof {
            lemma_le_value_bound(bytes@.subrange(6, 10));
            lemma_le_value_bound(bytes@.subrange(10, 14));
            reveal_with_fuel(radix, 5);
        }
        Some(
            InvokeRequest {
                common_header: RpcRequestHeader::parse(bytes),
                name_length: name_length as u32,
                args_length: args_length as u32,
            },
        )
    }

    /// Writes this header out as its fourteen wire bytes.
    pub fn encode(&self) -> (bytes: Vec<u8>)
        ensures
            bytes@ == self.encoding(),
    {
        let mut bytes: Vec<u8> = Vec::new();
        self.common_header.encode_into(&mut bytes);
        encode_le(self.name_length as u64, 4, &mut bytes);
        encode_le(self.args_length as u64, 4, &mut bytes);
        proof {
            assert(bytes@ =~= self.encoding());
        }
        bytes
    }
}

/// Header of an Invoke response: the common header and nothing more.
#[derive(Clone, Copy, Debug, PartialEq, Eq, Structural)]
pub struct InvokeResponse {
    pub common_header: RpcResponseHeader,
}

impl InvokeResponse {
    /// The header that a response starts out with.
    pub open spec fn spec_new() -> InvokeResponse {
        InvokeResponse {
            common_header: RpcResponseHeader {
                opcode: OpCode::SandstormInvokeRpc,
                tenant: 0,
                status: RpcStatus::StatusOk,
            },
        }
    }

    /// A header for an Invoke response that reports success.
    pub fn new() -> (header: InvokeResponse)
        ensures
            header == Self::spec_new(),
    {
        InvokeResponse {
            common_header: RpcResponseHeader {
                opcode: OpCode::SandstormInvokeRpc,
                tenant: 0,
                status: RpcStatus::StatusOk,
            },
        }
    }

    /// The six bytes of this header on the wire.
    pub open spec fn encoding(self) -> Seq<u8> {
        self.common_header.encoding()
    }

    /// The header that `bytes` start with; `None` when they are too few or
    /// the status byte is not an assigned one.
    pub open spec fn spec_parse(bytes: Seq<u8>) -> Option<InvokeResponse> {
        if bytes.len() < INVOKE_RESPONSE_LEN {
            None
        } else {
            match RpcResponseHeader::spec_parse(bytes) {
                Some(common_header) => Some(InvokeResponse { common_header }),
                None => None,
            }
        }
    }

    /// Reads an Invoke response header from the front of `bytes`.
    pub fn parse(bytes: &[u8]) -> (header: Option<InvokeResponse>)
        ensures
            header == Self::spec_parse(bytes@),
    {
        if bytes.len() < INVOKE_RESPONSE_LEN {
            return None;
        }
        match RpcResponseHeader::parse(bytes) {
            Some(common_header) => Some(InvokeResponse { common_header }),
            None => None,
        }
    }

    /// Writes this header out as its six wire bytes.
    pub fn encode(&self) -> (bytes: Vec<u8>)
        ensures
            bytes@ == self.encoding(),
    {
        let mut bytes: Vec<u8> = Vec::new();
        self.common_header.encode_into(&mut bytes);
        proof {
            assert(bytes@ =~= self.encoding());
        }
        bytes
    }
}

/// The field of `width` bytes that was written at offset `at` of `bytes`
/// reads back as `value`.
proof fn lemma_field_reads_back(bytes: Seq<u8>, at: int, value: nat, width: nat)
    requires
        0 <= at,
        at + width <= bytes.len(),
        value < radix(width),
        bytes.subrange(at, at + width) == le_bytes(value, width),
    ensures
        le_value(bytes.subrange(at, at + width)) == value,
{
    lemma_le_value_of_le_bytes(value, width);
}

/// A common request header that is written out and read back is unchanged,
/// whatever follows it.
pub proof fn lemma_request_header_round_trip(header: RpcRequestHeader, rest: Seq<u8>)
    ensures
        header.encoding().len() == COMMON_HEADER_LEN,
        RpcRequestHeader::spec_parse(header.encoding() + rest) == header,
{
    let bytes = header.encoding() + rest;
    lemma_le_bytes_len(header.tenant as nat, 4);
    lemma_code_round_trip(header.opcode, RpcStatus::StatusOk);
    reveal_with_fuel(radix, 5);
    assert(bytes.subrange(1, 5) =~= le_bytes(header.tenant as nat, 4));
    lemma_field_reads_back(bytes, 1, header.tenant as nat, 4);
}

/// A common response header that is written out and read back is unchanged,
/// whatever follows it.
pub proof fn lemma_response_header_round_trip(header: RpcResponseHeader, rest: Seq<u8>)
    ensures
        header.encoding().len() == COMMON_HEADER_LEN,
        RpcResponseHeader::spec_parse(header.encoding() + rest) == Some(header),
{
    let bytes = header.encoding() + rest;
    lemma_le_bytes_len(header.tenant as nat, 4);
    lemma_code_round_trip(header.opcode, header.status);
    reveal_with_fuel(radix, 5);
    assert(bytes.subrange(1, 5) =~= le_bytes(header.tenant as nat, 4));
    lemma_field_reads_back(bytes, 1, header.tenant as nat, 4);
}

/// A Get request header that is written out and read back is unchanged,
/// whatever payload follows it.
pub proof fn lemma_get_request_round_trip(header: GetRequest, payload: Seq<u8>)
    ensures
        header.encoding().len() == GET_REQUEST_LEN,
        GetRequest::spec_parse(header.encoding() + payload) == Some(header),
{
    let bytes = header.encoding() + payload;
    let tail = le_bytes(header.table_id as nat, 8) + le_bytes(header.key_length as nat, 2)
        + payload;
    lemma_request_header_round_trip(header.common_header, tail);
    lemma_le_bytes_len(header.table_id as nat, 8);
    lemma_le_bytes_len(header.key_length as nat, 2);
    reveal_with_fuel(radix, 9);
    assert(bytes =~= header.common_header.encoding() + tail);
    assert(bytes.subrange(6, 14) =~= le_bytes(header.table_id as nat, 8));
    assert(bytes.subrange(14, 16) =~= le_bytes(header.key_length as nat, 2));
    lemma_field_reads_back(bytes, 6, header.table_id as nat, 8);
    lemma_field_reads_back(bytes, 14, header.key_length as nat, 2);
}

/// A Get response header that is written out and read back is unchanged,
/// whatever payload follows it.
pub proof fn lemma_get_response_round_trip(header: GetResponse, payload: Seq<u8>)
    ensures
        header.encoding().len() == GET_RESPONSE_LEN,
        GetResponse::spec_parse(header.encoding() + payload) == Some(header),
{
    let bytes = header.encoding() + payload;
    let tail = le_bytes(header.value_length as nat, 4) + payload;
    lemma_response_header_round_trip(header.common_header, tail);
    lemma_le_bytes_len(header.value_length as nat, 4);
    reveal_with_fuel(radix, 5);
    assert(bytes =~= header.common_header.encoding() + tail);
    assert(bytes.subrange(6, 10) =~= le_bytes(header.value_length as nat, 4));
    lemma_field_reads_back(bytes, 6, header.value_length as nat, 4);
}

/// An Invoke request header that is written out and read back is unchanged,
/// whatever payload follows it.
pub proof fn lemma_invoke_request_round_trip(header: InvokeRequest, payload: Seq<u8>)
    ensures
        header.encoding().len() == INVOKE_REQUEST_LEN,
        InvokeRequest::spec_parse(header.encoding() + payload) == Some(header),
{
    let bytes = header.encoding() + payload;
    let tail = le_bytes(header.name_length as nat, 4) + le_bytes(header.args_length as nat, 4)
        + payload;
    lemma_request_header_round_trip(header.common_header, tail);
    lemma_le_bytes_len(header.name_length as nat, 4);
    lemma_le_bytes_len(header.args_length as nat, 4);
    reveal_with_fuel(radix, 5);
    assert(bytes =~= header.common_header.encoding() + tail);
    assert(bytes.subrange(6, 10) =~= le_bytes(header.name_length as nat, 4));
    assert(bytes.subrange(10, 14) =~= le_bytes(header.args_length as nat, 4));
    lemma_field_reads_back(bytes, 6, header.name_length as nat, 4);
    lemma_field_reads_back(bytes, 10, header.args_length as nat, 4);
}

/// An Invoke response header that is written out and read back is unchanged,
/// whatever payload follows it.
pub proof fn lemma_invoke_response_round_trip(header: InvokeResponse, payload: Seq<u8>)
    ensures
        header.encoding().len() == INVOKE_RESPONSE_LEN,
        InvokeResponse::spec_parse(header.encoding() + payload) == Some(header),
{
    lemma_response_header_round_trip(header.common_header, payload);
}

} // verus!
