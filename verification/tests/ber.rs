use snmpsim::ber::{decode_message, decode_value, encode_response, encode_value, Pdu, VarBind};
use snmpsim::oid::Oid;
use snmpsim::snmp_value::{Ipv4Addr, SnmpValue};

#[test]
fn test_encode_decode_integer() {
    let v = SnmpValue::Integer(12345);
    let encoded = encode_value(&v);
    let (decoded, _) = decode_value(&encoded).unwrap();
    assert_eq!(v, decoded);
}

#[test]
fn test_encode_decode_oid() {
    let oid: Oid = "1.3.6.1.2.1.1.1.0".parse().unwrap();
    let v = SnmpValue::ObjectIdentifier(oid.clone());
    let encoded = encode_value(&v);
    let (decoded, _) = decode_value(&encoded).unwrap();
    if let SnmpValue::ObjectIdentifier(decoded_oid) = decoded {
        assert_eq!(oid, decoded_oid);
    } else {
        panic!("Expected OID");
    }
}

#[test]
fn test_encode_decode_octet_string() {
    let v = SnmpValue::OctetString(b"hello world".to_vec());
    let encoded = encode_value(&v);
    let (decoded, _) = decode_value(&encoded).unwrap();
    assert_eq!(v, decoded);
}

#[test]
fn value_encodings() {
    assert_eq!(encode_value(&SnmpValue::Integer(0)), vec![0x02, 0x01, 0x00]);
    assert_eq!(encode_value(&SnmpValue::Integer(128)), vec![0x02, 0x02, 0x00, 0x80]);
    assert_eq!(encode_value(&SnmpValue::Integer(-1)), vec![0x02, 0x01, 0xff]);
    assert_eq!(encode_value(&SnmpValue::Null), vec![0x05, 0x00]);
    assert_eq!(encode_value(&SnmpValue::Counter32(256)), vec![0x41, 0x02, 0x01, 0x00]);
    assert_eq!(encode_value(&SnmpValue::Gauge32(0x80)), vec![0x42, 0x01, 0x80]);
    assert_eq!(
        encode_value(&SnmpValue::IpAddress(Ipv4Addr::new(10, 0, 0, 1))),
        vec![0x40, 0x04, 10, 0, 0, 1]
    );
    assert_eq!(
        encode_value(&SnmpValue::ObjectIdentifier(Oid::new(vec![1, 3, 6, 1, 300]))),
        vec![0x06, 0x05, 0x2b, 0x06, 0x01, 0x82, 0x2c]
    );
    assert_eq!(encode_value(&SnmpValue::EndOfMibView), vec![0x82, 0x00]);
}

#[test]
fn value_roundtrips() {
    let values = vec![
        SnmpValue::Integer(i64::MIN),
        SnmpValue::Integer(i64::MAX),
        SnmpValue::OctetString(vec![0; 300]),
        SnmpValue::Counter64(u64::MAX),
        SnmpValue::TimeTicks(4294967295),
        SnmpValue::Opaque(vec![1, 2, 3]),
        SnmpValue::NoSuchObject,
        SnmpValue::NoSuchInstance,
    ];
    for v in values {
        let mut bytes = encode_value(&v);
        bytes.extend_from_slice(&[9, 9]);
        let (d, rest) = decode_value(&bytes).unwrap();
        assert_eq!(d, v);
        assert_eq!(rest, &[9, 9]);
    }
}

#[test]
fn decode_errors() {
    assert!(decode_value(&[]).is_err());
    assert!(decode_value(&[0x02, 0x05, 0x01]).is_err());
    assert!(decode_value(&[0x02, 0x81]).is_err());
    assert!(decode_message(&[0x30, 0x00]).is_err());
}

#[test]
fn response_roundtrip() {
    let vbs = vec![
        VarBind { oid: Oid::new(vec![1, 3, 6, 1, 2, 1, 1, 1, 0]), value: SnmpValue::OctetString(b"x".to_vec()) },
        VarBind { oid: Oid::new(vec![1, 3, 6, 1, 2, 1, 1, 3, 0]), value: SnmpValue::TimeTicks(42) },
    ];
    let bytes = encode_response(1, b"public", 77, 0, 0, &vbs);
    let m = decode_message(&bytes).unwrap();
    assert_eq!(m.version, 1);
    assert_eq!(m.community, b"public".to_vec());
    match m.pdu {
        Pdu::GetResponse(p) => {
            assert_eq!(p.request_id, 77);
            assert_eq!(p.error_status, 0);
            assert_eq!(p.var_binds.len(), 2);
            assert_eq!(p.var_binds[0].oid, vbs[0].oid);
            assert_eq!(p.var_binds[1].value, SnmpValue::TimeTicks(42));
        }
        _ => panic!("expected a response"),
    }
}
