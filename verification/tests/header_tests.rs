use snmpkit::agentx::wire::Reader;
use snmpkit::agentx::{Flags, Header, PduType, AGENTX_VERSION, HEADER_SIZE};
use snmpkit::error::CodecError;

#[test]
fn test_header_roundtrip() {
    let header = Header::new(PduType::Open, 1, 2, 3).with_payload_length(100);

    let mut buf = Vec::new();
    header.encode(&mut buf).unwrap();

    assert_eq!(buf.len(), HEADER_SIZE);

    let decoded = Header::decode(&mut Reader::new(buf.as_slice())).unwrap();
    assert_eq!(decoded, header);
}

#[test]
fn test_header_fields() {
    let header = Header::new(PduType::Register, 42, 100, 200)
        .with_payload_length(50)
        .with_flags(Flags::NETWORK_BYTE_ORDER() | Flags::INSTANCE_REGISTRATION());

    assert_eq!(header.version, AGENTX_VERSION);
    assert_eq!(header.pdu_type, PduType::Register);
    assert_eq!(header.session_id, 42);
    assert_eq!(header.transaction_id, 100);
    assert_eq!(header.packet_id, 200);
    assert_eq!(header.payload_length, 50);
}

#[test]
fn test_pdu_type_conversion() {
    assert_eq!(PduType::try_from(1), Ok(PduType::Open));
    assert_eq!(PduType::try_from(18), Ok(PduType::Response));
    assert!(PduType::try_from(0).is_err());
    assert!(PduType::try_from(19).is_err());
}

#[test]
fn test_header_encode_decode() {
    let header = Header::new(PduType::Open, 1, 2, 3)
        .with_payload_length(100)
        .with_flags(Flags::NETWORK_BYTE_ORDER());

    let mut buf = Vec::new();
    header.encode(&mut buf).unwrap();

    assert_eq!(buf.len(), HEADER_SIZE);

    let decoded = Header::decode(&mut Reader::new(buf.as_slice())).unwrap();
    assert_eq!(decoded.pdu_type, PduType::Open);
    assert_eq!(decoded.session_id, 1);
    assert_eq!(decoded.transaction_id, 2);
    assert_eq!(decoded.packet_id, 3);
    assert_eq!(decoded.payload_length, 100);
}

#[test]
fn test_all_pdu_types() {
    let types = [
        PduType::Open,
        PduType::Close,
        PduType::Register,
        PduType::Unregister,
        PduType::Get,
        PduType::GetNext,
        PduType::GetBulk,
        PduType::Response,
    ];

    for pdu_type in types {
        let header = Header::new(pdu_type, 0, 0, 0);
        let mut buf = Vec::new();
        header.encode(&mut buf).unwrap();

        let decoded = Header::decode(&mut Reader::new(buf.as_slice())).unwrap();
        assert_eq!(decoded.pdu_type, pdu_type);
    }
}

#[test]
fn header_bytes_in_network_order() {
    let header = Header::new(PduType::Get, 0x0102_0304, 0x0506_0708, 0x090a_0b0c)
        .with_payload_length(0x0d0e_0f10);
    let mut buf = Vec::new();
    header.encode(&mut buf).unwrap();
    assert_eq!(
        buf,
        vec![1, 5, 0x10, 0, 1, 2, 3, 4, 5, 6, 7, 8, 9, 10, 11, 12, 13, 14, 15, 16]
    );
}

#[test]
fn header_bytes_in_little_endian_order() {
    let header = Header::new(PduType::Response, 0x0102_0304, 0x0506_0708, 0x090a_0b0c)
        .with_payload_length(0x0d0e_0f10)
        .with_flags(Flags::NEW_INDEX() | Flags::ANY_INDEX());
    let mut buf = Vec::new();
    header.encode(&mut buf).unwrap();
    assert_eq!(
        buf,
        vec![1, 18, 0x06, 0, 4, 3, 2, 1, 8, 7, 6, 5, 12, 11, 10, 9, 16, 15, 14, 13]
    );
    let decoded = Header::decode(&mut Reader::new(buf.as_slice())).unwrap();
    assert_eq!(decoded, header);
}

#[test]
fn header_decode_leaves_the_rest() {
    let header = Header::new(PduType::Ping, 7, 8, 9);
    let mut buf = Vec::new();
    header.encode(&mut buf).unwrap();
    buf.extend_from_slice(&[0xaa, 0xbb]);
    let mut reader = Reader::new(buf.as_slice());
    let decoded = Header::decode(&mut reader).unwrap();
    assert_eq!(decoded, header);
    assert_eq!(reader.remaining(), 2);
    assert_eq!(reader.as_slice(), &[0xaa, 0xbb]);
}

#[test]
fn header_decode_truncated() {
    let header = Header::new(PduType::Open, 1, 2, 3);
    let mut buf = Vec::new();
    header.encode(&mut buf).unwrap();
    let mut reader = Reader::new(&buf[..19]);
    assert_eq!(Header::decode(&mut reader), Err(CodecError::TruncatedInput));
    assert_eq!(reader.remaining(), 19);
    assert_eq!(
        Header::decode(&mut Reader::new(&[])),
        Err(CodecError::TruncatedInput)
    );
}

#[test]
fn header_decode_unknown_type() {
    let mut buf = vec![0u8; 20];
    buf[0] = 1;
    buf[1] = 19;
    assert_eq!(
        Header::decode(&mut Reader::new(buf.as_slice())),
        Err(CodecError::UnknownPduType(19))
    );
    buf[1] = 0;
    assert_eq!(
        Header::decode(&mut Reader::new(buf.as_slice())),
        Err(CodecError::UnknownPduType(0))
    );
}

#[test]
fn header_decode_drops_unknown_flag_bits_and_reserved_byte() {
    let mut buf = vec![0u8; 20];
    buf[0] = 1;
    buf[1] = 2;
    buf[2] = 0xf1;
    buf[3] = 0x55;
    let decoded = Header::decode(&mut Reader::new(buf.as_slice())).unwrap();
    assert_eq!(decoded.flags.bits(), 0x11);
    assert!(decoded.flags.contains(Flags::NETWORK_BYTE_ORDER()));
    assert!(decoded.flags.contains(Flags::INSTANCE_REGISTRATION()));
    assert!(!decoded.flags.contains(Flags::NEW_INDEX()));
}

#[test]
fn pdu_type_codes() {
    for code in 1u8..=18 {
        let t = PduType::try_from(code).unwrap();
        assert_eq!(t.code(), code);
    }
    assert_eq!(PduType::try_from(200), Err(200));
    assert_eq!(PduType::IndexAllocate.code(), 14);
    assert_eq!(PduType::RemoveAgentCaps.code(), 17);
}

#[test]
fn flags_operations() {
    assert_eq!(Flags::from_bits_truncate(0xff).bits(), 0x1f);
    assert_eq!(Flags::from_bits_truncate(0x0a).bits(), 0x0a);
    assert_eq!(Flags::empty().bits(), 0);
    let both = Flags::NON_DEFAULT_CONTEXT().union(Flags::ANY_INDEX());
    assert_eq!(both.bits(), 0x0c);
    assert!(both.contains(Flags::ANY_INDEX()));
    assert!(!both.contains(Flags::NETWORK_BYTE_ORDER()));
    assert_eq!(CodecError::TruncatedInput.message(), "truncated input");
}
