//! What the master service computes, stated as mathematics.
//!
//! The registry is a map from tenants to tables to keys to values. Each
//! handler is a function from that map and the bytes of a request to a status
//! and the bytes of an answer. The executable handlers are verified against
//! these functions, and the laws at the end of this module are proved from
//! them.

use crate::common::PACKET_UDP_LEN;
use crate::common::TableId;
use crate::common::UserId;
use crate::packet::PacketView;
use crate::rpc::spec_parse_rpc_opcode;
use crate::wireformat::le_bytes;
use crate::wireformat::lemma_code_round_trip;
use crate::wireformat::lemma_get_response_round_trip;
use crate::wireformat::lemma_invoke_response_round_trip;
use crate::wireformat::lemma_le_bytes_len;
use crate::wireformat::GetRequest;
use crate::wireformat::GetResponse;
use crate::wireformat::InvokeRequest;
use crate::wireformat::InvokeResponse;
use crate::wireformat::OpCode;
use crate::wireformat::RpcResponseHeader;
use crate::wireformat::RpcStatus;
use crate::wireformat::GET_REQUEST_LEN;
use crate::wireformat::GET_RESPONSE_LEN;
use crate::wireformat::INVOKE_REQUEST_LEN;
use crate::wireformat::INVOKE_RESPONSE_LEN;
use crate::wireformat::STATUS_OFFSET;
use crate::wireformat::VALUE_LENGTH_OFFSET;
use vstd::prelude::*;
use vstd::utf8::decode_utf8;
use vstd::utf8::valid_utf8;

verus! {

/// What a table holds: the value stored under each key.
pub type TableMap = Map<Seq<u8>, Seq<u8>>;

/// What a tenant owns: the contents of each of its tables.
pub type TenantMap = Map<TableId, TableMap>;

/// What the registry holds: what each tenant owns.
pub type RegistryMap = Map<UserId, TenantMap>;

/// The key of the pair that every new table starts out with.
pub open spec fn seed_key() -> Seq<u8> {
    Seq::new(30, |i: int| 1u8)
}

/// The value of the pair that every new table starts out with.
pub open spec fn seed_value() -> Seq<u8> {
    Seq::new(100, |i: int| 91u8)
}

/// What a new table holds: the seed pair and nothing else.
pub open spec fn seed_table() -> TableMap {
    Map::<Seq<u8>, Seq<u8>>::empty().insert(seed_key(), seed_value())
}

/// What the registry of a starting server holds: tenant 1 with table 1.
pub open spec fn seed_registry() -> RegistryMap {
    Map::<UserId, TenantMap>::empty().insert(
        1u32,
        Map::<TableId, TableMap>::empty().insert(1u64, seed_table()),
    )
}

/// The name under which a starting server binds its one extension.
pub open spec fn seed_extension() -> Seq<char> {
    "get"@
}

/// Where a starting server loads its one extension from.
pub open spec fn seed_extension_path() -> &'static str {
    "../ext/get/target/release/libget.so"
}

/// What a lookup of `key` in table `table` of tenant `tenant` yields: the
/// value, or the status that names the first thing found missing.
pub open spec fn spec_lookup(
    tenants: RegistryMap,
    tenant: UserId,
    table: TableId,
    key: Seq<u8>,
) -> Result<Seq<u8>, RpcStatus> {
    if !tenants.contains_key(tenant) {
        Err(RpcStatus::StatusTenantDoesNotExist)
    } else if !tenants[tenant].contains_key(table) {
        Err(RpcStatus::StatusTableDoesNotExist)
    } else if !tenants[tenant][table].contains_key(key) {
        Err(RpcStatus::StatusObjectDoesNotExist)
    } else {
        Ok(tenants[tenant][table][key])
    }
}

/// How a Get request ends: with a status, and with the bytes that are added
/// to the response payload, which are the value on success and none otherwise.
///
/// `payload` is what follows the request header and `room` is how many bytes
/// the response can still take.
pub open spec fn spec_get(
    tenants: RegistryMap,
    header: GetRequest,
    payload: Seq<u8>,
    room: int,
) -> (RpcStatus, Seq<u8>) {
    if payload.len() < header.key_length {
        (RpcStatus::StatusMalformedRequest, Seq::empty())
    } else {
        match spec_lookup(
            tenants,
            header.common_header.tenant,
            header.table_id,
            payload.subrange(0, header.key_length as int),
        ) {
            Err(status) => (status, Seq::empty()),
            Ok(value) => if value.len() <= room {
                (RpcStatus::StatusOk, value)
            } else {
                (RpcStatus::StatusInternalError, Seq::empty())
            },
        }
    }
}

/// The response `respons`, whose cursor stands on a Get response header, after
/// a Get ended with `status` and added `value` to the payload: the value
/// stands at the end of the payload, the status byte of the header holds the
/// status and, on success, the value-length field holds the size of the
/// payload. No other byte changes.
pub open spec fn get_reply(respons: PacketView, status: RpcStatus, value: Seq<u8>) -> PacketView {
    let filled = respons.appended(value);
    let stamped = filled.overwritten(STATUS_OFFSET as int, seq![status.spec_to_byte()]);
    if status == RpcStatus::StatusOk {
        stamped.overwritten(
            VALUE_LENGTH_OFFSET as int,
            le_bytes(filled.payload_bytes().len(), 4),
        )
    } else {
        stamped
    }
}

/// The status that answers an Invoke request. `payload` is what follows the
/// request header: the name of the extension, then its arguments.
pub open spec fn spec_invoke_status(
    tenants: RegistryMap,
    header: InvokeRequest,
    payload: Seq<u8>,
) -> RpcStatus {
    if payload.len() < header.name_length + header.args_length {
        RpcStatus::StatusMalformedRequest
    } else if !tenants.contains_key(header.common_header.tenant) {
        RpcStatus::StatusTenantDoesNotExist
    } else {
        RpcStatus::StatusOk
    }
}

/// The tenant and name that are handed to the extension manager on an Invoke
/// request; `None` when the request ends without a call.
pub open spec fn spec_invoke_target(
    tenants: RegistryMap,
    header: InvokeRequest,
    payload: Seq<u8>,
) -> Option<(UserId, Seq<char>)> {
    if spec_invoke_status(tenants, header, payload) == RpcStatus::StatusOk {
        Some(
            (
                header.common_header.tenant,
                decode_utf8(payload.subrange(0, header.name_length as int)),
            ),
        )
    } else {
        None
    }
}

/// The name that an Invoke request carries can be decoded: where the payload
/// holds the bytes that the header announces, the name bytes are well-formed
/// UTF-8.
pub open spec fn invoke_decodable(header: InvokeRequest, payload: Seq<u8>) -> bool {
    payload.len() >= header.name_length + header.args_length ==> valid_utf8(
        payload.subrange(0, header.name_length as int),
    )
}

/// The response `respons`, whose cursor stands on a response header, after
/// `status` was written into the header's status byte.
pub open spec fn status_reply(respons: PacketView, status: RpcStatus) -> PacketView {
    respons.overwritten(STATUS_OFFSET as int, seq![status.spec_to_byte()])
}

/// The response `respons`, whose cursor stands on the transport header, with
/// an answer written into it: the RPC header `header` stands right behind the
/// transport header, in front of what the payload held before, and `added`
/// stands at the end. The cursor is where it was.
pub open spec fn answered(respons: PacketView, header: Seq<u8>, added: Seq<u8>) -> PacketView {
    PacketView {
        bytes: respons.bytes.subrange(0, respons.payload) + header + respons.payload_bytes()
            + added,
        ..respons
    }
}

/// The header of the response to a Get that ended with `status`, where the
/// response payload holds `payload_len` bytes. The value length is announced
/// on success only.
pub open spec fn get_response_header(status: RpcStatus, payload_len: nat) -> GetResponse {
    GetResponse {
        common_header: RpcResponseHeader {
            opcode: OpCode::SandstormGetRpc,
            tenant: 0,
            status,
        },
        value_length: if status == RpcStatus::StatusOk {
            payload_len as u32
        } else {
            0
        },
    }
}

/// The header of the response to an Invoke that ended with `status`.
pub open spec fn invoke_response_header(status: RpcStatus) -> InvokeResponse {
    InvokeResponse {
        common_header: RpcResponseHeader {
            opcode: OpCode::SandstormInvokeRpc,
            tenant: 0,
            status,
        },
    }
}

/// How a request that asks for a Get ends: with a status and the bytes added
/// to the response payload. `rpc` is the request from its first byte after
/// the transport header, and `room` is how many bytes the response can take
/// after the header of the answer.
///
/// A request too short to hold a Get request header is malformed; any other
/// ends as [`spec_get`] says of its header and of what follows the header.
pub open spec fn spec_dispatch_get(tenants: RegistryMap, rpc: Seq<u8>, room: int) -> (
    RpcStatus,
    Seq<u8>,
) {
    match GetRequest::spec_parse(rpc) {
        None => (RpcStatus::StatusMalformedRequest, Seq::empty()),
        Some(header) => spec_get(tenants, header, rpc.skip(GET_REQUEST_LEN as int), room),
    }
}

/// The status that answers a request that asks for an Invoke, with `rpc` as
/// in [`spec_dispatch_get`].
///
/// A request too short to hold an Invoke request header is malformed; any
/// other is answered as [`spec_invoke_status`] says of its header and of what
/// follows the header.
pub open spec fn spec_dispatch_invoke(tenants: RegistryMap, rpc: Seq<u8>) -> RpcStatus {
    match InvokeRequest::spec_parse(rpc) {
        None => RpcStatus::StatusMalformedRequest,
        Some(header) => spec_invoke_status(tenants, header, rpc.skip(INVOKE_REQUEST_LEN as int)),
    }
}

/// The response that `dispatch` hands back for the request `rpc`, given the
/// response `respons` as it was handed in.
///
/// A Get is answered with a Get response header, followed by what the payload
/// held and then by the value, if one was found and fits. An Invoke is
/// answered with an Invoke response header. A request with an opcode that
/// this server does not recognise leaves the response as it was handed in.
pub open spec fn spec_dispatch(tenants: RegistryMap, rpc: Seq<u8>, respons: PacketView) -> PacketView {
    match spec_parse_rpc_opcode(rpc) {
        OpCode::SandstormGetRpc => {
            let (status, value) = spec_dispatch_get(
                tenants,
                rpc,
                respons.room() - GET_RESPONSE_LEN,
            );
            answered(
                respons,
                get_response_header(
                    status,
                    respons.payload_bytes().len() + value.len(),
                ).encoding(),
                value,
            )
        },
        OpCode::SandstormInvokeRpc => answered(
            respons,
            invoke_response_header(spec_dispatch_invoke(tenants, rpc)).encoding(),
            Seq::empty(),
        ),
        OpCode::InvalidOperation => respons,
    }
}

/// Writing a status into a fresh Get response header, and on success the
/// size of the payload too, gives the header that announces both.
pub(crate) proof fn lemma_get_answer(respons: PacketView, status: RpcStatus, value: Seq<u8>)
    requires
        respons.wf(),
        respons.header_len() == PACKET_UDP_LEN,
        respons.room() >= GET_RESPONSE_LEN + value.len(),
    ensures
        get_reply(respons.pushed(GetResponse::spec_new().encoding()), status, value).deparsed(
            PACKET_UDP_LEN as int,
        ) == answered(
            respons,
            get_response_header(status, respons.payload_bytes().len() + value.len()).encoding(),
            value,
        ),
{
    let fresh = GetResponse::spec_new();
    let header = get_response_header(status, respons.payload_bytes().len() + value.len());
    let pushed = respons.pushed(fresh.encoding());
    let left = get_reply(pushed, status, value).deparsed(PACKET_UDP_LEN as int);
    let right = answered(respons, header.encoding(), value);
    lemma_le_bytes_len(0, 4);
    lemma_le_bytes_len(header.value_length as nat, 4);
    assert(pushed.appended(value).payload_bytes().len() == respons.payload_bytes().len()
        + value.len());
    assert(left.bytes =~= right.bytes);
}

/// Writing a status into a fresh Invoke response header gives the header
/// that announces it.
pub(crate) proof fn lemma_invoke_answer(respons: PacketView, status: RpcStatus)
    requires
        respons.wf(),
        respons.header_len() == PACKET_UDP_LEN,
        respons.room() >= INVOKE_RESPONSE_LEN,
    ensures
        status_reply(respons.pushed(InvokeResponse::spec_new().encoding()), status).deparsed(
            PACKET_UDP_LEN as int,
        ) == answered(respons, invoke_response_header(status).encoding(), Seq::empty()),
{
    let pushed = respons.pushed(InvokeResponse::spec_new().encoding());
    let left = status_reply(pushed, status).deparsed(PACKET_UDP_LEN as int);
    let right = answered(respons, invoke_response_header(status).encoding(), Seq::empty());
    lemma_le_bytes_len(0, 4);
    assert(left.bytes =~= right.bytes);
}

/// What `dispatch` asks of the request and the response it is handed: both
/// stand with their cursor on the transport header; where the request is one
/// that is answered, the response has room for the header of the answer; and
/// the name in an Invoke request can be decoded.
pub open spec fn dispatchable(request: PacketView, respons: PacketView) -> bool {
    let rpc = request.payload_bytes();
    &&& request.header_len() == PACKET_UDP_LEN
    &&& respons.header_len() == PACKET_UDP_LEN
    &&& match spec_parse_rpc_opcode(rpc) {
        OpCode::SandstormGetRpc => respons.room() >= GET_RESPONSE_LEN,
        OpCode::SandstormInvokeRpc => {
            &&& respons.room() >= INVOKE_RESPONSE_LEN
            &&& match InvokeRequest::spec_parse(rpc) {
                Some(header) => invoke_decodable(header, rpc.skip(INVOKE_REQUEST_LEN as int)),
                None => true,
            }
        },
        OpCode::InvalidOperation => true,
    }
}

/// What follows the Get response header in a response that `dispatch` handed
/// back: the payload of the answer.
pub open spec fn get_reply_payload(out: PacketView) -> Seq<u8> {
    out.payload_bytes().skip(GET_RESPONSE_LEN as int)
}

/// The status that a response reports: the one in the RPC header that follows
/// the transport header.
pub open spec fn reply_status(out: PacketView) -> Option<RpcStatus> {
    RpcStatus::spec_from_byte(out.payload_bytes()[STATUS_OFFSET as int])
}

/// The answer to a Get reads back from the response: behind the transport
/// header stands the header that announces the status and, on success, the
/// size of the payload; behind that what the payload held before and then the
/// value.
pub proof fn lemma_get_answer_reads_back(tenants: RegistryMap, rpc: Seq<u8>, respons: PacketView)
    requires
        respons.wf(),
        respons.room() >= GET_RESPONSE_LEN,
        spec_parse_rpc_opcode(rpc) == OpCode::SandstormGetRpc,
    ensures
        ({
            let (status, value) = spec_dispatch_get(
                tenants,
                rpc,
                respons.room() - GET_RESPONSE_LEN,
            );
            let out = spec_dispatch(tenants, rpc, respons);
            &&& GetResponse::spec_parse(out.payload_bytes()) == Some(
                get_response_header(status, respons.payload_bytes().len() + value.len()),
            )
            &&& reply_status(out) == Some(status)
            &&& get_reply_payload(out) == respons.payload_bytes() + value
        }),
{
    let (status, value) = spec_dispatch_get(tenants, rpc, respons.room() - GET_RESPONSE_LEN);
    let header = get_response_header(status, respons.payload_bytes().len() + value.len());
    let out = spec_dispatch(tenants, rpc, respons);
    let behind = respons.payload_bytes() + value;
    lemma_get_response_round_trip(header, behind);
    lemma_code_round_trip(OpCode::SandstormGetRpc, status);
    lemma_le_bytes_len(0, 4);
    assert(out.payload_bytes() =~= header.encoding() + behind);
    assert(get_reply_payload(out) =~= behind);
}

/// The answer to an Invoke reads back from the response: behind the
/// transport header stands the header that announces the status, and behind
/// that what the payload held before.
pub proof fn lemma_invoke_answer_reads_back(
    tenants: RegistryMap,
    rpc: Seq<u8>,
    respons: PacketView,
)
    requires
        respons.wf(),
        respons.room() >= INVOKE_RESPONSE_LEN,
        spec_parse_rpc_opcode(rpc) == OpCode::SandstormInvokeRpc,
    ensures
        ({
            let status = spec_dispatch_invoke(tenants, rpc);
            let out = spec_dispatch(tenants, rpc, respons);
            &&& InvokeResponse::spec_parse(out.payload_bytes()) == Some(
                invoke_response_header(status),
            )
            &&& reply_status(out) == Some(status)
            &&& out.payload_bytes().skip(INVOKE_RESPONSE_LEN as int) == respons.payload_bytes()
        }),
{
    let status = spec_dispatch_invoke(tenants, rpc);
    let header = invoke_response_header(status);
    let out = spec_dispatch(tenants, rpc, respons);
    lemma_invoke_response_round_trip(header, respons.payload_bytes());
    lemma_code_round_trip(OpCode::SandstormInvokeRpc, status);
    lemma_le_bytes_len(0, 4);
    assert(out.payload_bytes() =~= header.encoding() + respons.payload_bytes());
    assert(out.payload_bytes().skip(INVOKE_RESPONSE_LEN as int) =~= respons.payload_bytes());
}

/// A Get request whose payload is shorter than the key it announces is
/// answered as malformed, whatever the registry holds, and nothing is added
/// to the response payload: a payload that was empty stays empty.
pub proof fn lemma_get_short_payload_is_malformed(
    tenants: RegistryMap,
    rpc: Seq<u8>,
    respons: PacketView,
    header: GetRequest,
)
    requires
        respons.wf(),
        respons.room() >= GET_RESPONSE_LEN,
        spec_parse_rpc_opcode(rpc) == OpCode::SandstormGetRpc,
        GetRequest::spec_parse(rpc) == Some(header),
        rpc.len() - GET_REQUEST_LEN < header.key_length,
    ensures
        reply_status(spec_dispatch(tenants, rpc, respons)) == Some(
            RpcStatus::StatusMalformedRequest,
        ),
        get_reply_payload(spec_dispatch(tenants, rpc, respons)) == respons.payload_bytes(),
        respons.payload_bytes().len() == 0 ==> get_reply_payload(
            spec_dispatch(tenants, rpc, respons),
        ).len() == 0,
{
    lemma_get_answer_reads_back(tenants, rpc, respons);
    assert(respons.payload_bytes() + Seq::<u8>::empty() =~= respons.payload_bytes());
}

/// A Get request that carries its whole key names what it misses: an unknown
/// tenant first, then an unknown table of a known tenant, then an unknown key
/// of a known table. In each case nothing is added to the response payload.
pub proof fn lemma_get_miss_is_named(
    tenants: RegistryMap,
    rpc: Seq<u8>,
    respons: PacketView,
    header: GetRequest,
)
    requires
        respons.wf(),
        respons.room() >= GET_RESPONSE_LEN,
        spec_parse_rpc_opcode(rpc) == OpCode::SandstormGetRpc,
        GetRequest::spec_parse(rpc) == Some(header),
        rpc.len() - GET_REQUEST_LEN >= header.key_length,
    ensures
        ({
            let out = spec_dispatch(tenants, rpc, respons);
            let tenant = header.common_header.tenant;
            let key = rpc.subrange(
                GET_REQUEST_LEN as int,
                GET_REQUEST_LEN + header.key_length,
            );
            &&& !tenants.contains_key(tenant) ==> reply_status(out) == Some(
                RpcStatus::StatusTenantDoesNotExist,
            )
            &&& tenants.contains_key(tenant) && !tenants[tenant].contains_key(header.table_id)
                ==> reply_status(out) == Some(RpcStatus::StatusTableDoesNotExist)
            &&& tenants.contains_key(tenant) && tenants[tenant].contains_key(header.table_id)
                && !tenants[tenant][header.table_id].contains_key(key) ==> reply_status(out)
                == Some(RpcStatus::StatusObjectDoesNotExist)
            &&& spec_lookup(tenants, tenant, header.table_id, key) is Err
                ==> get_reply_payload(out) == respons.payload_bytes()
        }),
{
    lemma_get_answer_reads_back(tenants, rpc, respons);
    assert(rpc.skip(GET_REQUEST_LEN as int).subrange(0, header.key_length as int) =~= rpc.subrange(
        GET_REQUEST_LEN as int,
        GET_REQUEST_LEN + header.key_length,
    ));
    assert(respons.payload_bytes() + Seq::<u8>::empty() =~= respons.payload_bytes());
}

/// A Get request that hits a key whose value fits the response is answered
/// with success: the value stands at the end of the response payload, byte
/// for byte, and the value-length field holds the size of that payload. In a
/// response that came with an empty payload, the payload is the value.
pub proof fn lemma_get_hit_returns_value(
    tenants: RegistryMap,
    rpc: Seq<u8>,
    respons: PacketView,
    header: GetRequest,
    value: Seq<u8>,
)
    requires
        respons.wf(),
        respons.room() >= GET_RESPONSE_LEN + value.len(),
        spec_parse_rpc_opcode(rpc) == OpCode::SandstormGetRpc,
        GetRequest::spec_parse(rpc) == Some(header),
        rpc.len() - GET_REQUEST_LEN >= header.key_length,
        spec_lookup(
            tenants,
            header.common_header.tenant,
            header.table_id,
            rpc.subrange(GET_REQUEST_LEN as int, GET_REQUEST_LEN + header.key_length),
        ) == Ok::<Seq<u8>, RpcStatus>(value),
    ensures
        ({
            let out = spec_dispatch(tenants, rpc, respons);
            &&& reply_status(out) == Some(RpcStatus::StatusOk)
            &&& get_reply_payload(out) == respons.payload_bytes() + value
            &&& GetResponse::spec_parse(out.payload_bytes()) matches Some(reply)
                && reply.value_length == get_reply_payload(out).len()
            &&& respons.payload_bytes().len() == 0 ==> get_reply_payload(out) == value
        }),
{
    lemma_get_answer_reads_back(tenants, rpc, respons);
    assert(rpc.skip(GET_REQUEST_LEN as int).subrange(0, header.key_length as int) =~= rpc.subrange(
        GET_REQUEST_LEN as int,
        GET_REQUEST_LEN + header.key_length,
    ));
    if respons.payload_bytes().len() == 0 {
        assert(respons.payload_bytes() + value =~= value);
    }
}

/// An Invoke request whose payload is shorter than the name and the
/// arguments it announces is answered as malformed, and no extension runs.
pub proof fn lemma_invoke_short_payload_is_malformed(
    tenants: RegistryMap,
    rpc: Seq<u8>,
    respons: PacketView,
    header: InvokeRequest,
)
    requires
        respons.wf(),
        respons.room() >= INVOKE_RESPONSE_LEN,
        spec_parse_rpc_opcode(rpc) == OpCode::SandstormInvokeRpc,
        InvokeRequest::spec_parse(rpc) == Some(header),
        rpc.len() - INVOKE_REQUEST_LEN < header.name_length + header.args_length,
    ensures
        reply_status(spec_dispatch(tenants, rpc, respons)) == Some(
            RpcStatus::StatusMalformedRequest,
        ),
        spec_invoke_target(tenants, header, rpc.skip(INVOKE_REQUEST_LEN as int)) is None,
{
    lemma_invoke_answer_reads_back(tenants, rpc, respons);
}

/// An Invoke request that carries its name and arguments but comes from an
/// unknown tenant is answered with the status that says so, and no extension
/// runs.
pub proof fn lemma_invoke_unknown_tenant_runs_nothing(
    tenants: RegistryMap,
    rpc: Seq<u8>,
    respons: PacketView,
    header: InvokeRequest,
)
    requires
        respons.wf(),
        respons.room() >= INVOKE_RESPONSE_LEN,
        spec_parse_rpc_opcode(rpc) == OpCode::SandstormInvokeRpc,
        InvokeRequest::spec_parse(rpc) == Some(header),
        rpc.len() - INVOKE_REQUEST_LEN >= header.name_length + header.args_length,
        !tenants.contains_key(header.common_header.tenant),
    ensures
        reply_status(spec_dispatch(tenants, rpc, respons)) == Some(
            RpcStatus::StatusTenantDoesNotExist,
        ),
        spec_invoke_target(tenants, header, rpc.skip(INVOKE_REQUEST_LEN as int)) is None,
{
    lemma_invoke_answer_reads_back(tenants, rpc, respons);
}

/// An Invoke request that carries its name and arguments and comes from a
/// known tenant is answered with success, whatever the extension did, and the
/// extension manager is handed that tenant and the decoded name.
pub proof fn lemma_invoke_known_tenant_succeeds(
    tenants: RegistryMap,
    rpc: Seq<u8>,
    respons: PacketView,
    header: InvokeRequest,
)
    requires
        respons.wf(),
        respons.room() >= INVOKE_RESPONSE_LEN,
        spec_parse_rpc_opcode(rpc) == OpCode::SandstormInvokeRpc,
        InvokeRequest::spec_parse(rpc) == Some(header),
        rpc.len() - INVOKE_REQUEST_LEN >= header.name_length + header.args_length,
        tenants.contains_key(header.common_header.tenant),
    ensures
        reply_status(spec_dispatch(tenants, rpc, respons)) == Some(RpcStatus::StatusOk),
        spec_invoke_target(tenants, header, rpc.skip(INVOKE_REQUEST_LEN as int)) == Some(
            (
                header.common_header.tenant,
                decode_utf8(
                    rpc.subrange(
                        INVOKE_REQUEST_LEN as int,
                        INVOKE_REQUEST_LEN + header.name_length,
                    ),
                ),
            ),
        ),
{
    lemma_invoke_answer_reads_back(tenants, rpc, respons);
    assert(rpc.skip(INVOKE_REQUEST_LEN as int).subrange(0, header.name_length as int)
        =~= rpc.subrange(INVOKE_REQUEST_LEN as int, INVOKE_REQUEST_LEN + header.name_length));
}

/// Whatever the request, the response comes back with its cursor where it
/// was, on the transport header, and with every byte up to the end of that
/// header unchanged.
pub proof fn lemma_dispatch_keeps_transport_header(
    tenants: RegistryMap,
    rpc: Seq<u8>,
    respons: PacketView,
)
    requires
        respons.wf(),
    ensures
        ({
            let out = spec_dispatch(tenants, rpc, respons);
            &&& out.header == respons.header
            &&& out.payload == respons.payload
            &&& out.limit == respons.limit
            &&& out.bytes.subrange(0, out.payload) == respons.bytes.subrange(0, respons.payload)
        }),
{
    let out = spec_dispatch(tenants, rpc, respons);
    assert(out.bytes.subrange(0, out.payload) =~= respons.bytes.subrange(0, respons.payload));
}

/// A Get adds bytes to the response payload on success only, and then no
/// more than the response has room for.
pub proof fn lemma_get_adds_value_only_on_success(
    tenants: RegistryMap,
    header: GetRequest,
    payload: Seq<u8>,
    room: int,
)
    ensures
        ({
            let (status, value) = spec_get(tenants, header, payload, room);
            &&& status != RpcStatus::StatusOk ==> value.len() == 0
            &&& status == RpcStatus::StatusOk ==> value.len() <= room && spec_lookup(
                tenants,
                header.common_header.tenant,
                header.table_id,
                payload.subrange(0, header.key_length as int),
            ) == Ok::<Seq<u8>, RpcStatus>(value)
        }),
{
}

/// A request with an opcode that this server does not recognise leaves the
/// response exactly as it was handed in: no header is added and no byte
/// changes.
pub proof fn lemma_unrecognized_opcode_changes_nothing(
    tenants: RegistryMap,
    rpc: Seq<u8>,
    respons: PacketView,
)
    requires
        spec_parse_rpc_opcode(rpc) == OpCode::InvalidOperation,
    ensures
        spec_dispatch(tenants, rpc, respons) == respons,
{
}

} // verus!
