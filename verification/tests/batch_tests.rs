use snmpkit::agentx::batch::{
    concat_buffers, encode_oids_batch, encode_search_ranges_batch, encode_values_batch,
    encode_varbinds_batch,
};
use snmpkit::agentx::pdu::{encode_oid, encode_value, SearchRange, VarBind};
use snmpkit::error::CodecError;
use snmpkit::oid::Oid;
use snmpkit::types::Value;

#[test]
fn test_encode_varbinds_batch() {
    let varbinds: Vec<VarBind> = (0..100)
        .map(|i| {
            let oid: Oid = format!("1.3.6.1.2.1.1.{i}").parse().unwrap();
            VarBind::new(oid, Value::Integer(i))
        })
        .collect();

    let encoded = encode_varbinds_batch(&varbinds).unwrap();
    assert_eq!(encoded.len(), 100);

    for buf in &encoded {
        assert!(!buf.is_empty());
    }
}

#[test]
fn test_encode_search_ranges_batch() {
    let ranges: Vec<SearchRange> = (0..100)
        .map(|i| {
            let start: Oid = format!("1.3.6.1.2.1.{i}").parse().unwrap();
            let end: Oid = format!("1.3.6.1.2.1.{}", i + 1).parse().unwrap();
            SearchRange::new(start, end, false)
        })
        .collect();

    let encoded = encode_search_ranges_batch(&ranges).unwrap();
    assert_eq!(encoded.len(), 100);
}

#[test]
fn test_encode_oids_batch() {
    let oids: Vec<Oid> = (0..100)
        .map(|i| format!("1.3.6.1.4.1.{i}").parse().unwrap())
        .collect();

    let encoded = encode_oids_batch(&oids, false).unwrap();
    assert_eq!(encoded.len(), 100);
}

#[test]
fn test_encode_values_batch() {
    let values: Vec<Value> = (0..100).map(Value::Integer).collect();

    let encoded = encode_values_batch(&values).unwrap();
    assert_eq!(encoded.len(), 100);
}

#[test]
fn test_concat_buffers() {
    let buffers = vec![vec![1, 2, 3], vec![4, 5], vec![6, 7, 8, 9]];

    let result = concat_buffers(buffers);
    assert_eq!(result, vec![1, 2, 3, 4, 5, 6, 7, 8, 9]);
}

#[test]
fn batch_is_index_for_index() {
    let varbinds: Vec<VarBind> = (0..20)
        .map(|i| {
            let oid: Oid = format!("1.3.6.1.2.1.1.{i}").parse().unwrap();
            VarBind::new(oid, Value::Integer(i))
        })
        .collect();
    let encoded = encode_varbinds_batch(&varbinds).unwrap();
    for (varbind, buf) in varbinds.iter().zip(encoded.iter()) {
        let mut single = Vec::new();
        varbind.encode(&mut single).unwrap();
        assert_eq!(buf, &single);
    }

    let ranges: Vec<SearchRange> = (0..20)
        .map(|i| {
            let start: Oid = format!("1.3.6.1.2.1.{i}").parse().unwrap();
            let end: Oid = format!("1.3.6.1.2.1.{}", i + 1).parse().unwrap();
            SearchRange::new(start, end, i % 2 == 0)
        })
        .collect();
    let encoded = encode_search_ranges_batch(&ranges).unwrap();
    for (range, buf) in ranges.iter().zip(encoded.iter()) {
        let mut single = Vec::new();
        range.encode(&mut single).unwrap();
        assert_eq!(buf, &single);
    }

    let oids: Vec<Oid> = (0..20)
        .map(|i| format!("1.3.6.1.4.1.{i}").parse().unwrap())
        .collect();
    let encoded = encode_oids_batch(&oids, true).unwrap();
    for (oid, buf) in oids.iter().zip(encoded.iter()) {
        let mut single = Vec::new();
        encode_oid(&mut single, oid, true).unwrap();
        assert_eq!(buf, &single);
    }

    let values: Vec<Value> = (0..20).map(Value::Counter32).collect();
    let encoded = encode_values_batch(&values).unwrap();
    for (value, buf) in values.iter().zip(encoded.iter()) {
        let mut single = Vec::new();
        encode_value(&mut single, value).unwrap();
        assert_eq!(buf, &single);
    }
}

#[test]
fn batch_fails_on_an_identifier_that_does_not_fit() {
    let long: Vec<u32> = (0..300).collect();
    let long = Oid::from_slice(&long).unwrap();
    let short: Oid = "1.3.6.1.2.1".parse().unwrap();

    let oids = vec![short.clone(), long.clone()];
    assert_eq!(
        encode_oids_batch(&oids, false),
        Err(CodecError::InvalidIdentifier)
    );
    let values = vec![Value::Null(), Value::ObjectIdentifier(long.clone())];
    assert_eq!(
        encode_values_batch(&values),
        Err(CodecError::InvalidIdentifier)
    );
    let varbinds = vec![VarBind::new(long.clone(), Value::Null())];
    assert_eq!(
        encode_varbinds_batch(&varbinds),
        Err(CodecError::InvalidIdentifier)
    );
    let ranges = vec![SearchRange::new(short, long, false)];
    assert_eq!(
        encode_search_ranges_batch(&ranges),
        Err(CodecError::InvalidIdentifier)
    );
}

#[test]
fn batch_of_nothing_and_concat_of_nothing() {
    assert_eq!(encode_oids_batch(&[], true), Ok(Vec::new()));
    assert_eq!(concat_buffers(Vec::new()), Vec::<u8>::new());
    assert_eq!(concat_buffers(vec![vec![], vec![5], vec![]]), vec![5]);
}
