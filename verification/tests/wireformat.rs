use db::wireformat::decode_le;
use db::wireformat::encode_le;
use db::wireformat::GetRequest;
use db::wireformat::GetResponse;
use db::wireformat::InvokeRequest;
use db::wireformat::InvokeResponse;
use db::wireformat::OpCode;
use db::wireformat::RpcRequestHeader;
use db::wireformat::RpcResponseHeader;
use db::wireformat::RpcStatus;
use db::wireformat::COMMON_HEADER_LEN;
use db::wireformat::GET_REQUEST_LEN;
use db::wireformat::GET_RESPONSE_LEN;
use db::wireformat::INVOKE_REQUEST_LEN;
use db::wireformat::INVOKE_RESPONSE_LEN;
use db::wireformat::STATUS_OFFSET;
use db::wireformat::VALUE_LENGTH_OFFSET;

#[test]
fn decode_le_reads_least_significant_byte_first() {
    assert_eq!(decode_le(&[]), 0);
    assert_eq!(decode_le(&[0x34, 0x12]), 0x1234);
    assert_eq!(decode_le(&[0x04, 0x03, 0x02, 0x01]), 0x0102_0304);
    assert_eq!(decode_le(&[0xff; 8]), u64::MAX);
    assert_eq!(decode_le(&[0, 0, 0, 0, 0, 0, 0, 0x80]), 1u64 << 63);
}

#[test]
fn encode_le_appends_low_bytes() {
    let mut out: Vec<u8> = vec![7];
    encode_le(0x0102_0304, 4, &mut out);
    assert_eq!(out, vec![7, 4, 3, 2, 1]);
    encode_le(0x1234, 2, &mut out);
    assert_eq!(out, vec![7, 4, 3, 2, 1, 0x34, 0x12]);
    encode_le(0xabcd, 0, &mut out);
    assert_eq!(out.len(), 7);
    let mut wide: Vec<u8> = Vec::new();
    encode_le(u64::MAX - 1, 8, &mut wide);
    assert_eq!(wide, vec![0xfe, 0xff, 0xff, 0xff, 0xff, 0xff, 0xff, 0xff]);
}

#[test]
fn encode_le_keeps_only_the_width() {
    let mut out: Vec<u8> = Vec::new();
    encode_le(0x0102_0304, 2, &mut out);
    assert_eq!(out, vec![4, 3]);
}

#[test]
fn le_round_trip_on_values() {
    for value in [0u64, 1, 255, 256, 65535, 65536, 0xdead_beef, u64::MAX] {
        let mut out: Vec<u8> = Vec::new();
        encode_le(value, 8, &mut out);
        assert_eq!(decode_le(&out), value);
    }
}

#[test]
fn opcode_bytes() {
    assert_eq!(OpCode::from_byte(1), OpCode::SandstormGetRpc);
    assert_eq!(OpCode::from_byte(2), OpCode::SandstormInvokeRpc);
    assert_eq!(OpCode::from_byte(0), OpCode::InvalidOperation);
    assert_eq!(OpCode::from_byte(3), OpCode::InvalidOperation);
    assert_eq!(OpCode::from_byte(255), OpCode::InvalidOperation);
    assert_eq!(OpCode::SandstormGetRpc.to_byte(), 1);
    assert_eq!(OpCode::SandstormInvokeRpc.to_byte(), 2);
    assert_eq!(OpCode::InvalidOperation.to_byte(), 3);
}

#[test]
fn status_bytes() {
    let all = [
        (RpcStatus::StatusOk, 1u8),
        (RpcStatus::StatusMalformedRequest, 2),
        (RpcStatus::StatusTenantDoesNotExist, 3),
        (RpcStatus::StatusTableDoesNotExist, 4),
        (RpcStatus::StatusObjectDoesNotExist, 5),
        (RpcStatus::StatusInternalError, 6),
    ];
    for (status, byte) in all {
        assert_eq!(status.to_byte(), byte);
        assert_eq!(RpcStatus::from_byte(byte), Some(status));
    }
    assert_eq!(RpcStatus::from_byte(0), None);
    assert_eq!(RpcStatus::from_byte(7), None);
    assert_eq!(RpcStatus::from_byte(255), None);
}

#[test]
fn header_sizes() {
    assert_eq!(COMMON_HEADER_LEN, 6);
    assert_eq!(STATUS_OFFSET, 5);
    assert_eq!(GET_REQUEST_LEN, 16);
    assert_eq!(GET_RESPONSE_LEN, 10);
    assert_eq!(VALUE_LENGTH_OFFSET, 6);
    assert_eq!(INVOKE_REQUEST_LEN, 14);
    assert_eq!(INVOKE_RESPONSE_LEN, 6);
}

#[test]
fn get_request_layout() {
    let header = GetRequest {
        common_header: RpcRequestHeader { opcode: OpCode::SandstormGetRpc, tenant: 0x0a0b_0c0d },
        table_id: 0x0102_0304_0506_0708,
        key_length: 30,
    };
    let bytes = header.encode();
    assert_eq!(
        bytes,
        vec![1, 0x0d, 0x0c, 0x0b, 0x0a, 0, 8, 7, 6, 5, 4, 3, 2, 1, 30, 0]
    );
    assert_eq!(GetRequest::parse(&bytes), Some(header));
}

#[test]
fn get_request_parse_ignores_reserved_byte_and_payload() {
    let mut bytes = vec![1u8, 1, 0, 0, 0, 0x77, 2, 0, 0, 0, 0, 0, 0, 0, 0x01, 0x02];
    bytes.extend_from_slice(&[9, 9, 9]);
    let header = GetRequest::parse(&bytes).unwrap();
    assert_eq!(header.common_header.opcode, OpCode::SandstormGetRpc);
    assert_eq!(header.common_header.tenant, 1);
    assert_eq!(header.table_id, 2);
    assert_eq!(header.key_length, 0x0201);
}

#[test]
fn get_request_parse_needs_sixteen_bytes() {
    assert_eq!(GetRequest::parse(&[]), None);
    assert_eq!(GetRequest::parse(&[1u8; 15]), None);
    assert!(GetRequest::parse(&[1u8; 16]).is_some());
}

#[test]
fn get_response_layout() {
    assert_eq!(
        GetResponse::new(),
        GetResponse {
            common_header: RpcResponseHeader {
                opcode: OpCode::SandstormGetRpc,
                tenant: 0,
                status: RpcStatus::StatusOk,
            },
            value_length: 0,
        }
    );
    assert_eq!(GetResponse::new().encode(), vec![1, 0, 0, 0, 0, 1, 0, 0, 0, 0]);
    let header = GetResponse {
        common_header: RpcResponseHeader {
            opcode: OpCode::SandstormGetRpc,
            tenant: 513,
            status: RpcStatus::StatusObjectDoesNotExist,
        },
        value_length: 100,
    };
    let bytes = header.encode();
    assert_eq!(bytes, vec![1, 1, 2, 0, 0, 5, 100, 0, 0, 0]);
    assert_eq!(GetResponse::parse(&bytes), Some(header));
}

#[test]
fn get_response_parse_rejects_short_or_unassigned_status() {
    assert_eq!(GetResponse::parse(&[1, 0, 0, 0, 0, 1, 0, 0, 0]), None);
    assert_eq!(GetResponse::parse(&[1, 0, 0, 0, 0, 0, 0, 0, 0, 0]), None);
    assert_eq!(GetResponse::parse(&[1, 0, 0, 0, 0, 7, 0, 0, 0, 0]), None);
}

#[test]
fn invoke_request_layout() {
    let header = InvokeRequest {
        common_header: RpcRequestHeader { opcode: OpCode::SandstormInvokeRpc, tenant: 1 },
        name_length: 3,
        args_length: 0x0100_0000,
    };
    let bytes = header.encode();
    assert_eq!(bytes, vec![2, 1, 0, 0, 0, 0, 3, 0, 0, 0, 0, 0, 0, 1]);
    assert_eq!(InvokeRequest::parse(&bytes), Some(header));
    assert_eq!(InvokeRequest::parse(&bytes[..13]), None);
}

#[test]
fn invoke_response_layout() {
    assert_eq!(
        InvokeResponse::new(),
        InvokeResponse {
            common_header: RpcResponseHeader {
                opcode: OpCode::SandstormInvokeRpc,
                tenant: 0,
                status: RpcStatus::StatusOk,
            },
        }
    );
    assert_eq!(InvokeResponse::new().encode(), vec![2, 0, 0, 0, 0, 1]);
    let header = InvokeResponse {
        common_header: RpcResponseHeader {
            opcode: OpCode::SandstormInvokeRpc,
            tenant: 0xffff_ffff,
            status: RpcStatus::StatusTenantDoesNotExist,
        },
    };
    let bytes = header.encode();
    assert_eq!(bytes, vec![2, 255, 255, 255, 255, 3]);
    assert_eq!(InvokeResponse::parse(&bytes), Some(header));
    assert_eq!(InvokeResponse::parse(&bytes[..5]), None);
    assert_eq!(InvokeResponse::parse(&[2, 0, 0, 0, 0, 9]), None);
}

#[test]
fn unknown_opcode_byte_parses_as_invalid_operation() {
    let bytes = [0x42u8, 1, 0, 0, 0, 0, 0, 0, 0, 0, 0, 0, 0, 0];
    let header = InvokeRequest::parse(&bytes).unwrap();
    assert_eq!(header.common_header.opcode, OpCode::InvalidOperation);
}
