use snmpkit::agentx::pdu::{
    decode_octet_string, decode_oid, decode_value, encode_octet_string, encode_oid, encode_value,
    pad_to_4, value_is_bounded, SearchRange, ValueType, VarBind,
};
use snmpkit::agentx::lists::varbinds_are_bounded;
use snmpkit::agentx::wire::Reader;
use snmpkit::error::CodecError;
use snmpkit::oid::Oid;
use snmpkit::types::Value;

#[test]
fn test_oid_encode_decode() {
    let oid: Oid = "1.3.6.1.4.1.12345".parse().unwrap();

    let mut buf = Vec::new();
    encode_oid(&mut buf, &oid, true).unwrap();

    let (decoded, inclusive) = decode_oid(&mut Reader::new(buf.as_slice())).unwrap();
    assert_eq!(decoded.to_string(), oid.to_string());
    assert!(inclusive);
}

#[test]
fn test_oid_prefix_optimization() {
    // OID starting with 1.3.6.1.X should use prefix optimization
    let oid: Oid = "1.3.6.1.4.1.12345".parse().unwrap();

    let mut buf = Vec::new();
    encode_oid(&mut buf, &oid, false).unwrap();

    // n_subid=2 (only .1.12345 after prefix), prefix=4, inclusion=0, reserved=0
    assert_eq!(buf[0], 2); // n_subid
    assert_eq!(buf[1], 4); // prefix (the 4 from 1.3.6.1.4)
}

#[test]
fn test_octet_string_roundtrip() {
    let data = b"hello world";

    let mut buf = Vec::new();
    encode_octet_string(&mut buf, data).unwrap();

    let decoded = decode_octet_string(&mut Reader::new(buf.as_slice())).unwrap();
    assert_eq!(decoded, data);
}

#[test]
fn test_octet_string_padding() {
    // 5 bytes should be padded to 8 (4 len + 5 data + 3 pad)
    let data = b"hello";

    let mut buf = Vec::new();
    encode_octet_string(&mut buf, data).unwrap();

    // 4 bytes length + 5 bytes data + 3 bytes padding = 12
    assert_eq!(buf.len(), 12);
}

#[test]
fn test_search_range() {
    let start: Oid = "1.3.6.1.2.1".parse().unwrap();
    let end: Oid = "1.3.6.1.2.2".parse().unwrap();
    let range = SearchRange::new(start.clone(), end.clone(), true);

    let mut buf = Vec::new();
    range.encode(&mut buf).unwrap();

    let decoded = SearchRange::decode(&mut Reader::new(buf.as_slice())).unwrap();
    assert_eq!(decoded.start.to_string(), start.to_string());
    assert_eq!(decoded.end.to_string(), end.to_string());
    assert!(decoded.inclusive);
}

#[test]
fn test_value_integer_roundtrip() {
    let value = Value::Integer(-12345);

    let mut buf = Vec::new();
    encode_value(&mut buf, &value).unwrap();

    let decoded = decode_value(&mut Reader::new(buf.as_slice())).unwrap();
    assert_eq!(decoded, value);
}

#[test]
fn test_value_string_roundtrip() {
    let value = Value::OctetString(b"hello world".to_vec());

    let mut buf = Vec::new();
    encode_value(&mut buf, &value).unwrap();

    let decoded = decode_value(&mut Reader::new(buf.as_slice())).unwrap();
    assert_eq!(decoded, value);
}

#[test]
fn test_value_counter64_roundtrip() {
    let value = Value::Counter64(u64::MAX);

    let mut buf = Vec::new();
    encode_value(&mut buf, &value).unwrap();

    let decoded = decode_value(&mut Reader::new(buf.as_slice())).unwrap();
    assert_eq!(decoded, value);
}

#[test]
fn test_varbind_roundtrip() {
    let oid: Oid = "1.3.6.1.2.1.1.1.0".parse().unwrap();
    let varbind = VarBind::new(oid, Value::Integer(42));

    let mut buf = Vec::new();
    varbind.encode(&mut buf).unwrap();

    let decoded = VarBind::decode(&mut Reader::new(buf.as_slice())).unwrap();
    assert_eq!(decoded.oid.to_string(), varbind.oid.to_string());
    assert_eq!(decoded.value, varbind.value);
}

fn oid(text: &str) -> Oid {
    text.parse().unwrap()
}

#[test]
fn pad_to_4_values() {
    assert_eq!(pad_to_4(0), 0);
    assert_eq!(pad_to_4(1), 3);
    assert_eq!(pad_to_4(2), 2);
    assert_eq!(pad_to_4(3), 1);
    assert_eq!(pad_to_4(4), 0);
    assert_eq!(pad_to_4(5), 3);
    assert_eq!(pad_to_4(1023), 1);
}

#[test]
fn oid_compressed_bytes() {
    let mut buf = Vec::new();
    encode_oid(&mut buf, &oid("1.3.6.1.4.1.12345"), true).unwrap();
    assert_eq!(buf, vec![2, 4, 1, 0, 0, 0, 0, 1, 0, 0, 0x30, 0x39]);
}

#[test]
fn oid_literal_bytes() {
    let mut buf = vec![0xff];
    encode_oid(&mut buf, &oid("1.2.840.113549"), false).unwrap();
    assert_eq!(
        buf,
        vec![0xff, 4, 0, 0, 0, 0, 0, 0, 1, 0, 0, 0, 2, 0, 0, 3, 0x48, 0, 1, 0xbb, 0x8d]
    );
    let mut reader = Reader::new(&buf[1..]);
    let (decoded, inclusive) = decode_oid(&mut reader).unwrap();
    assert_eq!(decoded, oid("1.2.840.113549"));
    assert!(!inclusive);
    assert_eq!(reader.remaining(), 0);
}

#[test]
fn oid_prefix_only() {
    let mut buf = Vec::new();
    encode_oid(&mut buf, &oid("1.3.6.1.2"), false).unwrap();
    assert_eq!(buf, vec![0, 2, 0, 0]);
    let (decoded, _) = decode_oid(&mut Reader::new(buf.as_slice())).unwrap();
    assert_eq!(decoded, oid("1.3.6.1.2"));
}

#[test]
fn oid_large_fifth_component_is_not_compressed() {
    let mut buf = Vec::new();
    encode_oid(&mut buf, &oid("1.3.6.1.256.9"), false).unwrap();
    assert_eq!(buf[0], 6);
    assert_eq!(buf[1], 0);
    assert_eq!(buf.len(), 4 + 6 * 4);
    let (decoded, _) = decode_oid(&mut Reader::new(buf.as_slice())).unwrap();
    assert_eq!(decoded, oid("1.3.6.1.256.9"));

    let mut buf = Vec::new();
    encode_oid(&mut buf, &oid("1.3.6.1.255.9"), false).unwrap();
    assert_eq!(buf, vec![1, 255, 0, 0, 0, 0, 0, 9]);
    let (decoded, _) = decode_oid(&mut Reader::new(buf.as_slice())).unwrap();
    assert_eq!(decoded, oid("1.3.6.1.255.9"));
}

#[test]
fn oid_zero_fifth_component_is_written_with_prefix_zero() {
    let mut buf = Vec::new();
    encode_oid(&mut buf, &oid("1.3.6.1.0.5"), false).unwrap();
    assert_eq!(buf, vec![1, 0, 0, 0, 0, 0, 0, 5]);
    let (decoded, _) = decode_oid(&mut Reader::new(buf.as_slice())).unwrap();
    assert_eq!(decoded, oid("5"));
}

#[test]
fn oid_null_decodes_to_zero() {
    let buf = [0u8, 0, 0, 0];
    let (decoded, inclusive) = decode_oid(&mut Reader::new(&buf)).unwrap();
    assert_eq!(decoded, oid("0"));
    assert_eq!(decoded.parts(), &[0]);
    assert!(!inclusive);
}

#[test]
fn oid_inclusion_flag_any_nonzero() {
    let buf = [0u8, 3, 0x80, 0x44];
    let (decoded, inclusive) = decode_oid(&mut Reader::new(&buf)).unwrap();
    assert_eq!(decoded, oid("1.3.6.1.3"));
    assert!(inclusive);
}

#[test]
fn oid_tail_of_255_roundtrips_and_256_fails() {
    let mut parts: Vec<u32> = vec![1, 3, 6, 1, 4];
    parts.extend(1000..1255u32);
    assert_eq!(parts.len(), 260);
    let fits = Oid::from_slice(&parts).unwrap();
    let mut buf = Vec::new();
    encode_oid(&mut buf, &fits, true).unwrap();
    assert_eq!(buf[0], 255);
    assert_eq!(buf[1], 4);
    assert_eq!(buf.len(), 4 + 255 * 4);
    let (decoded, inclusive) = decode_oid(&mut Reader::new(buf.as_slice())).unwrap();
    assert_eq!(decoded, fits);
    assert!(inclusive);

    parts.push(7);
    let too_long = Oid::from_slice(&parts).unwrap();
    let mut buf = vec![1u8, 2, 3];
    assert_eq!(
        encode_oid(&mut buf, &too_long, false),
        Err(CodecError::InvalidIdentifier)
    );
    assert_eq!(buf, vec![1u8, 2, 3]);

    let literal: Vec<u32> = (10..265).collect();
    assert_eq!(literal.len(), 255);
    let fits = Oid::from_slice(&literal).unwrap();
    let mut buf = Vec::new();
    encode_oid(&mut buf, &fits, false).unwrap();
    assert_eq!(buf[0], 255);
    assert_eq!(buf[1], 0);
    let (decoded, _) = decode_oid(&mut Reader::new(buf.as_slice())).unwrap();
    assert_eq!(decoded, fits);

    let literal: Vec<u32> = (10..266).collect();
    let too_long = Oid::from_slice(&literal).unwrap();
    let mut buf = Vec::new();
    assert_eq!(
        encode_oid(&mut buf, &too_long, false),
        Err(CodecError::InvalidIdentifier)
    );
    assert!(buf.is_empty());
}

#[test]
fn oid_decode_truncated() {
    let mut buf = Vec::new();
    encode_oid(&mut buf, &oid("1.3.6.1.4.1.12345"), false).unwrap();
    for cut in 0..buf.len() {
        let mut reader = Reader::new(&buf[..cut]);
        assert_eq!(
            decode_oid(&mut reader).err(),
            Some(CodecError::TruncatedInput)
        );
        assert_eq!(reader.remaining(), cut);
    }
}

#[test]
fn octet_string_bytes_and_padding() {
    for len in 0usize..=9 {
        let data: Vec<u8> = (1..=len as u8).collect();
        let mut buf = Vec::new();
        encode_octet_string(&mut buf, &data).unwrap();
        let padding = (4 - len % 4) % 4;
        assert_eq!(buf.len(), 4 + len + padding);
        assert_eq!(padding == 0, len % 4 == 0);
        assert_eq!(&buf[..4], &[0, 0, 0, len as u8]);
        assert_eq!(&buf[4..4 + len], data.as_slice());
        assert!(buf[4 + len..].iter().all(|b| *b == 0));

        buf.push(0x5a);
        let mut reader = Reader::new(buf.as_slice());
        assert_eq!(decode_octet_string(&mut reader).unwrap(), data);
        assert_eq!(reader.remaining(), 1);
    }
}

#[test]
fn octet_string_hello_bytes() {
    let mut buf = Vec::new();
    encode_octet_string(&mut buf, b"hello").unwrap();
    assert_eq!(
        buf,
        vec![0, 0, 0, 5, b'h', b'e', b'l', b'l', b'o', 0, 0, 0]
    );
}

#[test]
fn octet_string_length_prefix_alone_is_truncated() {
    let buf = [0u8, 0, 0, 5];
    let mut reader = Reader::new(&buf);
    assert_eq!(
        decode_octet_string(&mut reader),
        Err(CodecError::TruncatedInput)
    );
    assert_eq!(reader.remaining(), 4);
}

#[test]
fn octet_string_missing_padding_is_truncated() {
    let buf = [0u8, 0, 0, 5, 1, 2, 3, 4, 5, 0, 0];
    assert_eq!(
        decode_octet_string(&mut Reader::new(&buf)),
        Err(CodecError::TruncatedInput)
    );
    let buf = [0u8, 0, 0];
    assert_eq!(
        decode_octet_string(&mut Reader::new(&buf)),
        Err(CodecError::TruncatedInput)
    );
    let buf = [0xffu8, 0xff, 0xff, 0xff, 1, 2, 3];
    assert_eq!(
        decode_octet_string(&mut Reader::new(&buf)),
        Err(CodecError::TruncatedInput)
    );
}

fn all_values() -> Vec<(Value, u16)> {
    vec![
        (Value::Integer(-12345), 2),
        (Value::Integer(i32::MIN), 2),
        (Value::Integer(i32::MAX), 2),
        (Value::OctetString(b"hello world".to_vec()), 4),
        (Value::Null(), 5),
        (Value::ObjectIdentifier(oid("1.3.6.1.4.1.12345.1")), 6),
        (Value::IpAddress(192, 168, 0, 1), 64),
        (Value::Counter32(u32::MAX), 65),
        (Value::Gauge32(77), 66),
        (Value::TimeTicks(123_456_789), 67),
        (Value::Opaque(vec![0xde, 0xad, 0xbe, 0xef, 0x01]), 68),
        (Value::Counter64(u64::MAX), 70),
        (Value::Counter64(0x0102_0304_0506_0708), 70),
        (Value::NoSuchObject(), 128),
        (Value::NoSuchInstance(), 129),
        (Value::EndOfMibView(), 130),
    ]
}

#[test]
fn value_roundtrip_every_kind() {
    for (value, code) in all_values() {
        let mut buf = Vec::new();
        encode_value(&mut buf, &value).unwrap();
        assert_eq!(&buf[..4], &[(code >> 8) as u8, code as u8, 0, 0]);
        assert_eq!(ValueType::of_value(&value).code(), code);
        let len = buf.len();
        buf.extend_from_slice(&[0xa5, 0xa5]);
        let mut reader = Reader::new(buf.as_slice());
        assert_eq!(decode_value(&mut reader).unwrap(), value);
        assert_eq!(reader.remaining(), 2);

        for cut in 0..len {
            let mut reader = Reader::new(&buf[..cut]);
            assert_eq!(
                decode_value(&mut reader).err(),
                Some(CodecError::TruncatedInput)
            );
            assert_eq!(reader.remaining(), cut);
        }
    }
}

#[test]
fn value_exact_bytes() {
    let mut buf = Vec::new();
    encode_value(&mut buf, &Value::Integer(-2)).unwrap();
    assert_eq!(buf, vec![0, 2, 0, 0, 0xff, 0xff, 0xff, 0xfe]);

    let mut buf = Vec::new();
    encode_value(&mut buf, &Value::IpAddress(10, 0, 0, 1)).unwrap();
    assert_eq!(buf, vec![0, 64, 0, 0, 10, 0, 0, 1]);

    let mut buf = Vec::new();
    encode_value(&mut buf, &Value::Counter64(0x0102_0304_0506_0708)).unwrap();
    assert_eq!(buf, vec![0, 70, 0, 0, 1, 2, 3, 4, 5, 6, 7, 8]);

    let mut buf = Vec::new();
    encode_value(&mut buf, &Value::EndOfMibView()).unwrap();
    assert_eq!(buf, vec![0, 130, 0, 0]);

    let mut buf = Vec::new();
    encode_value(&mut buf, &Value::Opaque(vec![9])).unwrap();
    assert_eq!(buf, vec![0, 68, 0, 0, 0, 0, 0, 1, 9, 0, 0, 0]);

    let mut buf = Vec::new();
    encode_value(&mut buf, &Value::TimeTicks(0x0a0b_0c0d)).unwrap();
    assert_eq!(buf, vec![0, 67, 0, 0, 0x0a, 0x0b, 0x0c, 0x0d]);
}

#[test]
fn value_unknown_type_code() {
    for code in [0u16, 1, 3, 7, 63, 69, 127, 131, 0x0200, 0xffff] {
        let buf = [(code >> 8) as u8, code as u8, 0, 0, 1, 2, 3, 4, 5, 6, 7, 8];
        let mut reader = Reader::new(&buf);
        assert_eq!(
            decode_value(&mut reader),
            Err(CodecError::UnknownValueType(code))
        );
        assert_eq!(reader.remaining(), buf.len());
        assert_eq!(ValueType::from_code(code), None);
    }
}

#[test]
fn value_identifier_overflow() {
    let long: Vec<u32> = (0..300).collect();
    let value = Value::ObjectIdentifier(Oid::from_slice(&long).unwrap());
    let mut buf = vec![7u8];
    assert_eq!(
        encode_value(&mut buf, &value),
        Err(CodecError::InvalidIdentifier)
    );
    assert_eq!(buf, vec![7u8]);
}

#[test]
fn varbind_roundtrip_consumes_what_encode_wrote() {
    for (value, _) in all_values() {
        let varbind = VarBind::new(oid("1.3.6.1.2.1.1.1.0"), value);
        let mut buf = Vec::new();
        varbind.encode(&mut buf).unwrap();
        let len = buf.len();
        buf.extend_from_slice(&[1, 2, 3, 4, 5]);
        let mut reader = Reader::new(buf.as_slice());
        let decoded = VarBind::decode(&mut reader).unwrap();
        assert_eq!(decoded, varbind);
        assert_eq!(buf.len() - reader.remaining(), len);
    }
}

#[test]
fn varbind_exact_bytes() {
    let varbind = VarBind::new(oid("1.3.6.1.2.1.1.1.0"), Value::Integer(42));
    let mut buf = Vec::new();
    varbind.encode(&mut buf).unwrap();
    let expected: Vec<u8> = vec![
        4, 2, 0, 0, 0, 0, 0, 1, 0, 0, 0, 1, 0, 0, 0, 1, 0, 0, 0, 0, // identifier
        0, 2, 0, 0, 0, 0, 0, 42, // value
    ];
    assert_eq!(buf, expected);
}

#[test]
fn varbind_encode_fails_without_writing() {
    let long: Vec<u32> = (0..300).collect();
    let varbind = VarBind::new(
        oid("1.3.6.1.2.1"),
        Value::ObjectIdentifier(Oid::from_slice(&long).unwrap()),
    );
    let mut buf = vec![1u8];
    assert_eq!(varbind.encode(&mut buf), Err(CodecError::InvalidIdentifier));
    assert_eq!(buf, vec![1u8]);
}

#[test]
fn search_range_roundtrip_consumes_what_encode_wrote() {
    let range = SearchRange::new(oid("1.3.6.1.2.1"), oid("1.3.6.1.2.2"), true);
    let mut buf = Vec::new();
    range.encode(&mut buf).unwrap();
    assert_eq!(
        buf,
        vec![1, 2, 1, 0, 0, 0, 0, 1, 1, 2, 0, 0, 0, 0, 0, 2]
    );
    let len = buf.len();
    buf.push(0);
    let mut reader = Reader::new(buf.as_slice());
    let decoded = SearchRange::decode(&mut reader).unwrap();
    assert_eq!(decoded, range);
    assert_eq!(buf.len() - reader.remaining(), len);

    for cut in 0..len {
        let mut reader = Reader::new(&buf[..cut]);
        assert_eq!(
            SearchRange::decode(&mut reader).err(),
            Some(CodecError::TruncatedInput)
        );
        assert_eq!(reader.remaining(), cut);
    }
}

#[test]
fn search_range_ignores_inclusion_flag_of_end() {
    let buf = [0u8, 2, 0, 0, 0, 3, 1, 0];
    let decoded = SearchRange::decode(&mut Reader::new(&buf)).unwrap();
    assert_eq!(decoded.start, oid("1.3.6.1.2"));
    assert_eq!(decoded.end, oid("1.3.6.1.3"));
    assert!(!decoded.inclusive);
}

#[test]
fn bounded_values() {
    for (value, _) in all_values() {
        assert!(value_is_bounded(&value));
    }
    let varbinds: Vec<VarBind> = all_values()
        .into_iter()
        .map(|(value, _)| VarBind::new(oid("1.3"), value))
        .collect();
    assert!(varbinds_are_bounded(&varbinds));
    assert!(varbinds_are_bounded(&[]));
}
