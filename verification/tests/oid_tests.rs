use snmpkit::error::CodecError;
use snmpkit::oid::Oid;
use snmpkit::types::Value;

#[test]
fn oid_parse_and_text() {
    let oid: Oid = "1.3.6.1.4.1.12345".parse().unwrap();
    assert_eq!(oid.parts(), &[1, 3, 6, 1, 4, 1, 12345]);
    assert_eq!(oid.len(), 7);
    assert_eq!(oid.to_string(), "1.3.6.1.4.1.12345");
    assert_eq!(Oid::parse("0").unwrap().parts(), &[0]);
    assert_eq!(Oid::parse("4294967295").unwrap().parts(), &[u32::MAX]);
    assert_eq!(Oid::parse("007.010").unwrap().parts(), &[7, 10]);
    assert_eq!(Oid::parse("007.010").unwrap().to_string(), "7.10");
    assert_eq!(
        Oid::parse("0000000000000000004294967295.1").unwrap().parts(),
        &[u32::MAX, 1]
    );
}

#[test]
fn oid_text_of_every_digit_count() {
    let parts = [
        0u32, 9, 10, 99, 100, 12345, 999_999, 1_000_000, 305_419_896, 4_294_967_295,
    ];
    let oid = Oid::from_slice(&parts).unwrap();
    assert_eq!(
        oid.to_string(),
        "0.9.10.99.100.12345.999999.1000000.305419896.4294967295"
    );
    assert_eq!(Oid::parse(&oid.to_string()), Ok(oid));
}

#[test]
fn oid_parse_rejects() {
    for text in [
        "", ".", "1.", ".1", "1..2", "1.3.x", "a", "1 .2", " 1.2", "1.2 ", "-1", "+1", "1,2",
        "1.3.6.1.é", "4294967296", "1.99999999999999999999", "1.2.4294967296.3",
        "١.٢",
    ] {
        assert_eq!(Oid::parse(text), Err(CodecError::InvalidIdentifier));
        assert!(text.parse::<Oid>().is_err());
    }
}

#[test]
fn oid_from_slice_and_child() {
    assert_eq!(Oid::from_slice(&[]), Err(CodecError::InvalidIdentifier));
    assert_eq!(Oid::from_vec(Vec::new()), Err(CodecError::InvalidIdentifier));
    let oid = Oid::from_slice(&[1, 3, 6]).unwrap();
    assert_eq!(oid, Oid::from_vec(vec![1, 3, 6]).unwrap());
    let child = oid.child(1);
    assert_eq!(child.parts(), &[1, 3, 6, 1]);
    assert_eq!(oid.parts(), &[1, 3, 6]);
    assert_eq!(child.clone(), child);
    assert_eq!(child.len(), 4);
}

#[test]
fn value_clone_is_equal() {
    let values = vec![
        Value::Integer(-1),
        Value::OctetString(vec![1, 2, 3]),
        Value::Null(),
        Value::ObjectIdentifier(Oid::from_slice(&[1, 3]).unwrap()),
        Value::IpAddress(1, 2, 3, 4),
        Value::Counter32(5),
        Value::Gauge32(6),
        Value::TimeTicks(7),
        Value::Opaque(vec![8]),
        Value::Counter64(9),
        Value::NoSuchObject(),
        Value::NoSuchInstance(),
        Value::EndOfMibView(),
    ];
    for value in &values {
        assert_eq!(&value.clone(), value);
    }
    assert_ne!(values[0], values[5]);
}
