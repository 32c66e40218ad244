use snmpkit::agentx::bodies::{
    CleanupSetPdu, ClosePdu, CloseReason, CommitSetPdu, GetBulkPdu, GetPdu, NotifyPdu, OpenPdu,
    PingPdu, RegisterPdu, ResponseError, ResponsePdu, TestSetPdu, UndoSetPdu, UnregisterPdu,
};
use snmpkit::agentx::pdu::{SearchRange, VarBind};
use snmpkit::agentx::wire::Reader;
use snmpkit::error::CodecError;
use snmpkit::oid::Oid;
use snmpkit::types::Value;

fn oid(text: &str) -> Oid {
    text.parse().unwrap()
}

#[test]
fn test_open_pdu_roundtrip() {
    let pdu = OpenPdu::new(
        30,
        "1.3.6.1.4.1.12345".parse().unwrap(),
        b"test agent".to_vec(),
    );

    let mut buf = Vec::new();
    pdu.encode(&mut buf).unwrap();

    let decoded = OpenPdu::decode(&mut Reader::new(buf.as_slice())).unwrap();
    assert_eq!(decoded.timeout, 30);
    assert_eq!(decoded.description, b"test agent");
}

#[test]
fn test_close_pdu_roundtrip() {
    let pdu = ClosePdu::new(CloseReason::Shutdown);

    let mut buf = Vec::new();
    pdu.encode(&mut buf).unwrap();

    let decoded = ClosePdu::decode(&mut Reader::new(buf.as_slice())).unwrap();
    assert_eq!(decoded.reason, CloseReason::Shutdown);
}

#[test]
fn test_register_pdu_roundtrip() {
    let pdu = RegisterPdu::new("1.3.6.1.4.1.12345".parse().unwrap(), 127, 30);

    let mut buf = Vec::new();
    pdu.encode(&mut buf).unwrap();

    let decoded = RegisterPdu::decode(&mut Reader::new(buf.as_slice()), false).unwrap();
    assert_eq!(decoded.timeout, 30);
    assert_eq!(decoded.priority, 127);
}

#[test]
fn test_response_pdu_encode() {
    let pdu = ResponsePdu::new(1000, vec![]);

    let mut buf = Vec::new();
    pdu.encode(&mut buf).unwrap();

    assert_eq!(buf.len(), 8); // 4 + 2 + 2
}

#[test]
fn test_unregister_pdu_roundtrip() {
    let pdu = UnregisterPdu::new("1.3.6.1.4.1.12345".parse().unwrap(), 127);

    let mut buf = Vec::new();
    pdu.encode(&mut buf).unwrap();

    let decoded = UnregisterPdu::decode(&mut Reader::new(buf.as_slice()), false).unwrap();
    assert_eq!(decoded.priority, 127);
}

#[test]
fn test_getbulk_pdu_roundtrip() {
    let start: Oid = "1.3.6.1.2.1".parse().unwrap();
    let end: Oid = "1.3.6.1.2.2".parse().unwrap();
    let range = SearchRange::new(start, end, false);
    let pdu = GetBulkPdu::new(0, 10, vec![range]);

    let mut buf = Vec::new();
    pdu.encode(&mut buf).unwrap();

    let decoded = GetBulkPdu::decode(&mut Reader::new(buf.as_slice()), buf.len()).unwrap();
    assert_eq!(decoded.non_repeaters, 0);
    assert_eq!(decoded.max_repetitions, 10);
    assert_eq!(decoded.ranges.len(), 1);
}

#[test]
fn test_testset_pdu_roundtrip() {
    let oid: Oid = "1.3.6.1.2.1.1.1.0".parse().unwrap();
    let vb = VarBind::new(oid, Value::Integer(42));
    let pdu = TestSetPdu::new(vec![vb]);

    let mut buf = Vec::new();
    pdu.encode(&mut buf).unwrap();

    let decoded = TestSetPdu::decode(&mut Reader::new(buf.as_slice()), buf.len()).unwrap();
    assert_eq!(decoded.varbinds.len(), 1);
}

#[test]
fn test_empty_pdus() {
    // CommitSet
    let commit = CommitSetPdu::new();
    let mut buf = Vec::new();
    commit.encode(&mut buf).unwrap();
    assert!(buf.is_empty());

    // UndoSet
    let undo = UndoSetPdu::new();
    let mut buf = Vec::new();
    undo.encode(&mut buf).unwrap();
    assert!(buf.is_empty());

    // CleanupSet
    let cleanup = CleanupSetPdu::new();
    let mut buf = Vec::new();
    cleanup.encode(&mut buf).unwrap();
    assert!(buf.is_empty());

    // Ping
    let ping = PingPdu::new();
    let mut buf = Vec::new();
    ping.encode(&mut buf).unwrap();
    assert!(buf.is_empty());
}

#[test]
fn test_notify_pdu_roundtrip() {
    let oid: Oid = "1.3.6.1.6.3.1.1.4.1.0".parse().unwrap();
    let vb = VarBind::new(
        oid,
        Value::ObjectIdentifier("1.3.6.1.4.1.12345.1".parse().unwrap()),
    );
    let pdu = NotifyPdu::new(vec![vb]);

    let mut buf = Vec::new();
    pdu.encode(&mut buf).unwrap();

    let decoded = NotifyPdu::decode(&mut Reader::new(buf.as_slice()), buf.len()).unwrap();
    assert_eq!(decoded.varbinds.len(), 1);
}

#[test]
fn open_pdu_exact_bytes_and_fields() {
    let pdu = OpenPdu::new(30, oid("1.3.6.1.4.1.12345"), b"test agent".to_vec());
    let mut buf = Vec::new();
    pdu.encode(&mut buf).unwrap();
    let expected: Vec<u8> = vec![
        30, 0, 0, 0, // timeout, reserved
        2, 4, 0, 0, 0, 0, 0, 1, 0, 0, 0x30, 0x39, // identifier
        0, 0, 0, 10, b't', b'e', b's', b't', b' ', b'a', b'g', b'e', b'n', b't', 0, 0,
    ];
    assert_eq!(buf, expected);

    buf.push(0xee);
    let mut reader = Reader::new(buf.as_slice());
    let decoded = OpenPdu::decode(&mut reader).unwrap();
    assert_eq!(decoded.timeout, 30);
    assert_eq!(decoded.id, oid("1.3.6.1.4.1.12345"));
    assert_eq!(decoded.id.to_string(), "1.3.6.1.4.1.12345");
    assert_eq!(decoded.description, b"test agent");
    assert_eq!(reader.remaining(), 1);
}

#[test]
fn open_pdu_truncated() {
    let pdu = OpenPdu::new(5, oid("1.3.6.1.4.1.12345"), b"abc".to_vec());
    let mut buf = Vec::new();
    pdu.encode(&mut buf).unwrap();
    for cut in 0..buf.len() {
        let mut reader = Reader::new(&buf[..cut]);
        assert_eq!(
            OpenPdu::decode(&mut reader).err(),
            Some(CodecError::TruncatedInput)
        );
        assert_eq!(reader.remaining(), cut);
    }
}

#[test]
fn open_pdu_identifier_overflow() {
    let parts: Vec<u32> = (0..300).collect();
    let pdu = OpenPdu::new(1, Oid::from_slice(&parts).unwrap(), Vec::new());
    let mut buf = vec![9u8];
    assert_eq!(pdu.encode(&mut buf), Err(CodecError::InvalidIdentifier));
    assert_eq!(buf, vec![9u8]);
}

#[test]
fn close_reason_codes() {
    let reasons = [
        (CloseReason::Other, 1u8),
        (CloseReason::ParseError, 2),
        (CloseReason::ProtocolError, 3),
        (CloseReason::Timeouts, 4),
        (CloseReason::Shutdown, 5),
        (CloseReason::ByManager, 6),
    ];
    for (reason, code) in reasons {
        let mut buf = Vec::new();
        ClosePdu::new(reason).encode(&mut buf).unwrap();
        assert_eq!(buf, vec![code, 0, 0, 0]);
        let decoded = ClosePdu::decode(&mut Reader::new(buf.as_slice())).unwrap();
        assert_eq!(decoded.reason, reason);
        assert_eq!(CloseReason::from_code(code), reason);
    }
}

#[test]
fn close_reason_unknown_falls_back_to_other() {
    for code in [0u8, 7, 99, 255] {
        let buf = [code, 1, 2, 3];
        let decoded = ClosePdu::decode(&mut Reader::new(&buf)).unwrap();
        assert_eq!(decoded.reason, CloseReason::Other);
    }
}

#[test]
fn close_pdu_truncated() {
    let buf = [5u8, 0, 0];
    let mut reader = Reader::new(&buf);
    assert_eq!(
        ClosePdu::decode(&mut reader),
        Err(CodecError::TruncatedInput)
    );
    assert_eq!(reader.remaining(), 3);
}

#[test]
fn register_pdu_with_range_roundtrip() {
    let pdu = RegisterPdu::new(oid("1.3.6.1.4.1.12345"), 127, 30).with_range(7, 0x0102_0304);
    let mut buf = Vec::new();
    pdu.encode(&mut buf).unwrap();
    let expected: Vec<u8> = vec![
        30, 127, 7, 0, 2, 4, 0, 0, 0, 0, 0, 1, 0, 0, 0x30, 0x39, 1, 2, 3, 4,
    ];
    assert_eq!(buf, expected);

    let mut reader = Reader::new(buf.as_slice());
    let decoded = RegisterPdu::decode(&mut reader, true).unwrap();
    assert_eq!(decoded.timeout, 30);
    assert_eq!(decoded.priority, 127);
    assert_eq!(decoded.range_subid, 7);
    assert_eq!(decoded.subtree, oid("1.3.6.1.4.1.12345"));
    assert_eq!(decoded.upper_bound, Some(0x0102_0304));
    assert_eq!(reader.remaining(), 0);

    let mut reader = Reader::new(buf.as_slice());
    let decoded = RegisterPdu::decode(&mut reader, false).unwrap();
    assert_eq!(decoded.upper_bound, None);
    assert_eq!(reader.remaining(), 4);
}

#[test]
fn register_pdu_incomplete_upper_bound() {
    let pdu = RegisterPdu::new(oid("1.3.6.1.4.1.12345"), 127, 30);
    let mut buf = Vec::new();
    pdu.encode(&mut buf).unwrap();
    let mut reader = Reader::new(buf.as_slice());
    assert_eq!(
        RegisterPdu::decode(&mut reader, true).err(),
        Some(CodecError::IncompleteUpperBoundContext)
    );
    assert_eq!(reader.remaining(), buf.len());

    buf.extend_from_slice(&[0, 0, 1]);
    assert_eq!(
        RegisterPdu::decode(&mut Reader::new(buf.as_slice()), true).err(),
        Some(CodecError::IncompleteUpperBoundContext)
    );
    assert_eq!(
        UnregisterPdu::decode(&mut Reader::new(buf.as_slice()), true).err(),
        Some(CodecError::IncompleteUpperBoundContext)
    );
}

#[test]
fn register_pdu_truncated() {
    let pdu = RegisterPdu::new(oid("1.3.6.1.4.1.12345"), 127, 30);
    let mut buf = Vec::new();
    pdu.encode(&mut buf).unwrap();
    for cut in 0..buf.len() {
        assert_eq!(
            RegisterPdu::decode(&mut Reader::new(&buf[..cut]), false).err(),
            Some(CodecError::TruncatedInput)
        );
        assert_eq!(
            RegisterPdu::decode(&mut Reader::new(&buf[..cut]), true).err(),
            Some(CodecError::TruncatedInput)
        );
    }
}

#[test]
fn unregister_pdu_with_range_roundtrip() {
    let pdu = UnregisterPdu::new(oid("1.3.6.1.2.1.5"), 9).with_range(3, 77);
    let mut buf = Vec::new();
    pdu.encode(&mut buf).unwrap();
    let expected: Vec<u8> = vec![0, 9, 3, 0, 2, 2, 0, 0, 0, 0, 0, 1, 0, 0, 0, 5, 0, 0, 0, 77];
    assert_eq!(buf, expected);
    let decoded = UnregisterPdu::decode(&mut Reader::new(buf.as_slice()), true).unwrap();
    assert_eq!(decoded.priority, 9);
    assert_eq!(decoded.range_subid, 3);
    assert_eq!(decoded.subtree, oid("1.3.6.1.2.1.5"));
    assert_eq!(decoded.upper_bound, Some(77));
}

fn three_ranges() -> Vec<SearchRange> {
    vec![
        SearchRange::new(oid("1.3.6.1.2.1"), oid("1.3.6.1.2.2"), true),
        SearchRange::new(oid("1.3.6.1.4.1.12345.1.2.3"), oid("2.5"), false),
        SearchRange::new(oid("0"), oid("1.3.6.1.255"), true),
    ]
}

fn three_varbinds() -> Vec<VarBind> {
    vec![
        VarBind::new(oid("1.3.6.1.2.1.1.1.0"), Value::Integer(-7)),
        VarBind::new(
            oid("1.3.6.1.2.1.1.5.0"),
            Value::OctetString(b"hello".to_vec()),
        ),
        VarBind::new(
            oid("1.3.6.1.6.3.1.1.4.1.0"),
            Value::ObjectIdentifier(oid("1.3.6.1.4.1.12345.1")),
        ),
    ]
}

#[test]
fn get_pdu_list_roundtrip_and_one_short() {
    let pdu = GetPdu::new(three_ranges());
    let mut buf = Vec::new();
    pdu.encode(&mut buf).unwrap();
    let len = buf.len();
    buf.extend_from_slice(&[1, 2, 3, 4, 5, 6, 7, 8]);

    let mut reader = Reader::new(buf.as_slice());
    let decoded = GetPdu::decode(&mut reader, len).unwrap();
    assert_eq!(decoded.ranges, three_ranges());
    assert_eq!(reader.remaining(), 8);

    let mut reader = Reader::new(buf.as_slice());
    assert_eq!(
        GetPdu::decode(&mut reader, len - 1).err(),
        Some(CodecError::TruncatedInput)
    );
    assert_eq!(reader.remaining(), buf.len());
}

#[test]
fn get_pdu_empty_payload() {
    let mut reader = Reader::new(&[1, 2, 3]);
    let decoded = GetPdu::decode(&mut reader, 0).unwrap();
    assert!(decoded.ranges.is_empty());
    assert_eq!(reader.remaining(), 3);
}

#[test]
fn get_pdu_payload_longer_than_buffer() {
    let pdu = GetPdu::new(three_ranges());
    let mut buf = Vec::new();
    pdu.encode(&mut buf).unwrap();
    assert_eq!(
        GetPdu::decode(&mut Reader::new(buf.as_slice()), buf.len() + 1).err(),
        Some(CodecError::TruncatedInput)
    );
}

#[test]
fn get_pdu_single() {
    let pdu = GetPdu::single(oid("1.3.6.1.2.1.1.1"));
    assert_eq!(pdu.ranges.len(), 1);
    assert_eq!(pdu.ranges[0].start, oid("1.3.6.1.2.1.1.1"));
    assert_eq!(pdu.ranges[0].end, oid("1.3.6.1.2.1.1.1.0"));
    assert!(!pdu.ranges[0].inclusive);
}

#[test]
fn getbulk_pdu_list_roundtrip_and_one_short() {
    let pdu = GetBulkPdu::new(0x0102, 10, three_ranges());
    let mut buf = Vec::new();
    pdu.encode(&mut buf).unwrap();
    assert_eq!(&buf[..4], &[1, 2, 0, 10]);
    let len = buf.len();
    buf.push(0x77);

    let mut reader = Reader::new(buf.as_slice());
    let decoded = GetBulkPdu::decode(&mut reader, len).unwrap();
    assert_eq!(decoded.non_repeaters, 0x0102);
    assert_eq!(decoded.max_repetitions, 10);
    assert_eq!(decoded.ranges, three_ranges());
    assert_eq!(reader.remaining(), 1);

    assert_eq!(
        GetBulkPdu::decode(&mut Reader::new(buf.as_slice()), len - 1).err(),
        Some(CodecError::TruncatedInput)
    );
    assert_eq!(
        GetBulkPdu::decode(&mut Reader::new(buf.as_slice()), 3).err(),
        Some(CodecError::TruncatedInput)
    );
    let decoded = GetBulkPdu::decode(&mut Reader::new(buf.as_slice()), 4).unwrap();
    assert!(decoded.ranges.is_empty());
}

#[test]
fn testset_pdu_list_roundtrip_and_one_short() {
    let pdu = TestSetPdu::new(three_varbinds());
    let mut buf = Vec::new();
    pdu.encode(&mut buf).unwrap();
    let len = buf.len();
    buf.extend_from_slice(&[0; 12]);

    let mut reader = Reader::new(buf.as_slice());
    let decoded = TestSetPdu::decode(&mut reader, len).unwrap();
    assert_eq!(decoded.varbinds, three_varbinds());
    assert_eq!(reader.remaining(), 12);

    assert_eq!(
        TestSetPdu::decode(&mut Reader::new(buf.as_slice()), len - 1).err(),
        Some(CodecError::TruncatedInput)
    );
}

#[test]
fn notify_pdu_list_roundtrip_and_one_short() {
    let pdu = NotifyPdu::new(three_varbinds());
    let mut buf = Vec::new();
    pdu.encode(&mut buf).unwrap();
    let len = buf.len();

    let decoded = NotifyPdu::decode(&mut Reader::new(buf.as_slice()), len).unwrap();
    assert_eq!(decoded.varbinds, three_varbinds());

    assert_eq!(
        NotifyPdu::decode(&mut Reader::new(buf.as_slice()), len - 1).err(),
        Some(CodecError::TruncatedInput)
    );
}

#[test]
fn notify_pdu_unknown_value_type() {
    let pdu = NotifyPdu::new(three_varbinds());
    let mut buf = Vec::new();
    pdu.encode(&mut buf).unwrap();
    // the type code of the first value follows the 20 bytes of its identifier
    buf[20] = 0;
    buf[21] = 3;
    let mut reader = Reader::new(buf.as_slice());
    assert_eq!(
        NotifyPdu::decode(&mut reader, buf.len()).err(),
        Some(CodecError::UnknownValueType(3))
    );
    assert_eq!(reader.remaining(), buf.len());
}

#[test]
fn response_pdu_with_results_roundtrip_and_one_short() {
    let pdu = ResponsePdu::new(1000, three_varbinds());
    let mut buf = Vec::new();
    pdu.encode(&mut buf).unwrap();
    assert_eq!(&buf[..8], &[0, 0, 0x03, 0xe8, 0, 0, 0, 0]);
    let len = buf.len();
    buf.extend_from_slice(&[9, 9, 9]);

    let mut reader = Reader::new(buf.as_slice());
    let decoded = ResponsePdu::decode(&mut reader, len).unwrap();
    assert_eq!(decoded.sys_uptime, 1000);
    assert_eq!(decoded.error, ResponseError::NoError);
    assert_eq!(decoded.index, 0);
    assert_eq!(decoded.varbinds, three_varbinds());
    assert_eq!(reader.remaining(), 3);

    let mut reader = Reader::new(buf.as_slice());
    assert_eq!(
        ResponsePdu::decode(&mut reader, len - 1).err(),
        Some(CodecError::TruncatedInput)
    );
    assert_eq!(reader.remaining(), buf.len());
}

#[test]
fn response_pdu_error_roundtrip() {
    let pdu = ResponsePdu::error(0x0a0b_0c0d, ResponseError::ParseError, 3);
    let mut buf = Vec::new();
    pdu.encode(&mut buf).unwrap();
    assert_eq!(buf, vec![0x0a, 0x0b, 0x0c, 0x0d, 0x01, 0x0a, 0, 3]);
    let decoded = ResponsePdu::decode(&mut Reader::new(buf.as_slice()), 8).unwrap();
    assert_eq!(decoded.sys_uptime, 0x0a0b_0c0d);
    assert_eq!(decoded.error, ResponseError::ParseError);
    assert_eq!(decoded.index, 3);
    assert!(decoded.varbinds.is_empty());
    assert_eq!(
        ResponsePdu::decode(&mut Reader::new(buf.as_slice()), 7).err(),
        Some(CodecError::TruncatedInput)
    );
}

#[test]
fn response_error_codes() {
    let all = [
        (ResponseError::NoError, 0u16),
        (ResponseError::OpenFailed, 256),
        (ResponseError::NotOpen, 257),
        (ResponseError::IndexWrongType, 258),
        (ResponseError::IndexAlreadyAllocated, 259),
        (ResponseError::IndexNoneAvailable, 260),
        (ResponseError::IndexNotAllocated, 261),
        (ResponseError::UnsupportedContext, 262),
        (ResponseError::DuplicateRegistration, 263),
        (ResponseError::UnknownRegistration, 264),
        (ResponseError::UnknownAgentCaps, 265),
        (ResponseError::ParseError, 266),
        (ResponseError::RequestDenied, 267),
        (ResponseError::ProcessingError, 268),
    ];
    for (error, code) in all {
        assert_eq!(error.code(), code);
        assert_eq!(ResponseError::from(code), error);
    }
    for code in [1u16, 255, 269, 1000, 65535] {
        assert_eq!(ResponseError::from(code), ResponseError::ProcessingError);
    }
}

#[test]
fn empty_pdus_decode_reads_nothing() {
    let buf = [1u8, 2, 3];
    let mut reader = Reader::new(&buf);
    CommitSetPdu::decode(&mut reader).unwrap();
    UndoSetPdu::decode(&mut reader).unwrap();
    CleanupSetPdu::decode(&mut reader).unwrap();
    PingPdu::decode(&mut reader).unwrap();
    assert_eq!(reader.remaining(), 3);
}

#[test]
fn list_encode_fails_without_writing() {
    let long: Vec<u32> = (0..256).collect();
    let mut varbinds = three_varbinds();
    varbinds.push(VarBind::new(
        Oid::from_slice(&long).unwrap(),
        Value::Null(),
    ));
    let mut buf = vec![1u8, 2];
    assert_eq!(
        TestSetPdu::new(varbinds.clone()).encode(&mut buf),
        Err(CodecError::InvalidIdentifier)
    );
    assert_eq!(buf, vec![1u8, 2]);
    assert_eq!(
        ResponsePdu::new(1, varbinds).encode(&mut buf),
        Err(CodecError::InvalidIdentifier)
    );
    assert_eq!(buf, vec![1u8, 2]);

    let mut ranges = three_ranges();
    ranges.push(SearchRange::new(
        oid("1.3"),
        Oid::from_slice(&long).unwrap(),
        false,
    ));
    assert_eq!(
        GetBulkPdu::new(1, 2, ranges).encode(&mut buf),
        Err(CodecError::InvalidIdentifier)
    );
    assert_eq!(buf, vec![1u8, 2]);
}
