use snmpsim::error::SnmpsimError;
use snmpsim::oid::Oid;
use snmpsim::record::snmprec::SnmprecRecord;
use snmpsim::record::walk::WalkRecord;
use snmpsim::record::dump::DumpRecord;
use snmpsim::record::EvalContext;
use snmpsim::snmp_value::{Ipv4Addr, SnmpValue};

fn exact() -> EvalContext {
    EvalContext { exact_match: true, ..Default::default() }
}

fn message(e: SnmpsimError) -> String {
    match e {
        SnmpsimError::Parse(m) => m,
        SnmpsimError::Config(m) => format!("config: {}", m),
        _ => panic!("unexpected error kind"),
    }
}

#[test]
fn test_evaluate_integer() {
    let mut r = SnmprecRecord::new();
    let ctx = exact();
    let (oid, val) = r.evaluate(b"1.3.6.1.2.1.1.1.0|2|12345", &ctx).unwrap();
    assert_eq!(oid.to_dotted_string(), "1.3.6.1.2.1.1.1.0");
    assert_eq!(val, Some(SnmpValue::Integer(12345)));
}

#[test]
fn test_evaluate_hex_octet_string() {
    let mut r = SnmprecRecord::new();
    let ctx = exact();
    let (_, val) = r.evaluate(b"1.3.6.1|4x|deadbeef", &ctx).unwrap();
    assert_eq!(val, Some(SnmpValue::OctetString(vec![0xde, 0xad, 0xbe, 0xef])));
}

#[test]
fn test_evaluate_ipaddress() {
    let mut r = SnmprecRecord::new();
    let ctx = exact();
    let (_, val) = r.evaluate(b"1.3.6.1|64|192.168.1.1", &ctx).unwrap();
    assert_eq!(val, Some(SnmpValue::IpAddress(Ipv4Addr::new(192, 168, 1, 1))));
}

#[test]
fn parse_value_cases() {
    let p = |t: &str, e: Option<char>, v: &str| SnmprecRecord::parse_value(t, e, v);
    assert_eq!(p("2", None, " -42 ").unwrap(), SnmpValue::Integer(-42));
    assert_eq!(p("4", None, "héllo").unwrap(), SnmpValue::OctetString("héllo".as_bytes().to_vec()));
    assert_eq!(p("4", Some('e'), "a\\x00").unwrap(), SnmpValue::OctetString(vec![b'a', 0]));
    assert_eq!(p("5", None, "anything").unwrap(), SnmpValue::Null);
    assert_eq!(p("6", None, " 1.3.6 ").unwrap(), SnmpValue::ObjectIdentifier(Oid::new(vec![1, 3, 6])));
    assert_eq!(p("64", Some('x'), "7f000001").unwrap(), SnmpValue::IpAddress(Ipv4Addr::new(127, 0, 0, 1)));
    assert_eq!(p("65", None, "4294967295").unwrap(), SnmpValue::Counter32(u32::MAX));
    assert_eq!(p("66", None, "7").unwrap(), SnmpValue::Gauge32(7));
    assert_eq!(p("67", None, "0").unwrap(), SnmpValue::TimeTicks(0));
    assert_eq!(p("68", Some('x'), "0102").unwrap(), SnmpValue::Opaque(vec![1, 2]));
    assert_eq!(p("68", None, "ab").unwrap(), SnmpValue::Opaque(b"ab".to_vec()));
    assert_eq!(p("70", None, "18446744073709551615").unwrap(), SnmpValue::Counter64(u64::MAX));
    assert_eq!(p("128", None, "").unwrap(), SnmpValue::NoSuchObject);
    assert_eq!(p("129", None, "").unwrap(), SnmpValue::NoSuchInstance);
    assert_eq!(p("130", None, "").unwrap(), SnmpValue::EndOfMibView);
}

#[test]
fn parse_value_errors() {
    let p = |t: &str, e: Option<char>, v: &str| message(SnmprecRecord::parse_value(t, e, v).unwrap_err());
    assert_eq!(p("2", None, "x1"), "Invalid INTEGER \"x1\": invalid digit found in string");
    assert_eq!(p("65", None, "4294967296"), "Invalid Counter32 \"4294967296\": number too large to fit in target type");
    assert_eq!(p("66", None, ""), "Invalid Gauge32 \"\": cannot parse integer from empty string");
    assert_eq!(p("67", None, "-1"), "Invalid TimeTicks \"-1\": invalid digit found in string");
    assert_eq!(p("70", None, "z"), "Invalid Counter64 \"z\": invalid digit found in string");
    assert_eq!(p("4", Some('x'), "abc"), "Hex decode error: Odd number of digits");
    assert_eq!(p("4", Some('x'), "zz"), "Hex decode error: Invalid character 'z' at position 0");
    assert_eq!(p("64", None, "1.2.3"), "IpAddress must be 4 bytes, got 3");
    assert_eq!(p("64", None, "1.2.300.4"), "Invalid IP octet \"300\": number too large to fit in target type");
    assert_eq!(p("6", None, "1.a"), "Invalid OID '1.a': invalid digit found in string");
    assert_eq!(p("99", None, "1"), "Unknown snmprec tag: \"99\"");
}

#[test]
fn format_values() {
    let r = SnmprecRecord::new();
    let oid = Oid::new(vec![1, 3, 6, 1]);
    let f = |v: SnmpValue| r.format_value(&oid, &v);
    assert_eq!(f(SnmpValue::Integer(-5)), ("1.3.6.1".into(), "2".into(), "-5".into()));
    assert_eq!(f(SnmpValue::OctetString(b"Linux box".to_vec())), ("1.3.6.1".into(), "4".into(), "Linux box".into()));
    assert_eq!(f(SnmpValue::OctetString(vec![0, 255])), ("1.3.6.1".into(), "4x".into(), "00ff".into()));
    assert_eq!(f(SnmpValue::IpAddress(Ipv4Addr::new(10, 0, 0, 1))), ("1.3.6.1".into(), "64x".into(), "0a000001".into()));
    assert_eq!(f(SnmpValue::Opaque(vec![1])), ("1.3.6.1".into(), "68x".into(), "01".into()));
    assert_eq!(f(SnmpValue::Counter64(12)), ("1.3.6.1".into(), "70".into(), "12".into()));
    assert_eq!(f(SnmpValue::Null), ("1.3.6.1".into(), "5".into(), "".into()));
    assert_eq!(f(SnmpValue::ObjectIdentifier(Oid::new(vec![1, 2]))), ("1.3.6.1".into(), "6".into(), "1.2".into()));
    assert_eq!(SnmprecRecord::hexify_value(&SnmpValue::OctetString(b"ok".to_vec())), None);
    assert_eq!(r.format(&oid, &SnmpValue::TimeTicks(9)).unwrap(), b"1.3.6.1|67|9\n".to_vec());
}

#[test]
fn format_then_evaluate_gives_value_back() {
    let mut r = SnmprecRecord::new();
    let oid = Oid::new(vec![1, 3, 6, 1, 2, 1, 1, 5, 0]);
    let values = vec![
        SnmpValue::Integer(-17),
        SnmpValue::OctetString(b"a|b c".to_vec()),
        SnmpValue::OctetString(vec![0, 1, 2, 200]),
        SnmpValue::ObjectIdentifier(Oid::new(vec![1, 3, 6])),
        SnmpValue::IpAddress(Ipv4Addr::new(1, 2, 3, 4)),
        SnmpValue::Counter32(3),
        SnmpValue::Opaque(vec![]),
        SnmpValue::EndOfMibView,
    ];
    for v in values {
        let line = r.format(&oid, &v).unwrap();
        let (o, back) = r.evaluate(&line, &exact()).unwrap();
        assert_eq!(o, oid);
        assert_eq!(back, Some(v));
    }
}

#[test]
fn evaluation_rules() {
    let mut r = SnmprecRecord::new();
    // subtree records read as Null
    let (_, v) = r.evaluate(b"1.3.6.1|:sub|x", &exact()).unwrap();
    assert_eq!(v, Some(SnmpValue::Null));
    // a GET that is not an exact match answers noSuchInstance
    let ctx = EvalContext { orig_oid: Some(Oid::new(vec![1])), ..Default::default() };
    let (_, v) = r.evaluate(b"1.3.6.1|2|5", &ctx).unwrap();
    assert_eq!(v, Some(SnmpValue::NoSuchInstance));
    // only the OID
    let ctx = EvalContext { oid_only: true, ..Default::default() };
    let (o, v) = r.evaluate(b"1.3.6.1|2|notanumber", &ctx).unwrap();
    assert_eq!(o, Oid::new(vec![1, 3, 6, 1]));
    assert_eq!(v, None);
    // unknown module
    let e = r.evaluate(b"1.3.6.1|2:nosuch|5", &exact()).unwrap_err();
    assert_eq!(message(e), "config: Unknown variation module: \"nosuch\"");
    // broken OID
    let e = r.evaluate(b"1.x|2|5", &exact()).unwrap_err();
    assert_eq!(message(e), "Invalid OID '1.x': invalid digit found in string");
}

#[test]
fn variation_modules_through_records() {
    let mut r = SnmprecRecord::new();
    let (_, v) = r.evaluate(b"1.3.6.1|2:error|error=noSuchObject", &exact()).unwrap();
    assert_eq!(v, Some(SnmpValue::NoSuchObject));
    let (_, v) = r.evaluate(b"1.3.6.1|2:error|", &exact()).unwrap();
    assert_eq!(v, Some(SnmpValue::NoSuchInstance));
    let (_, v) = r.evaluate(b"1.3.6.1|66:numeric|start=10,step=5", &exact()).unwrap();
    assert_eq!(v, Some(SnmpValue::Gauge32(15)));
    let (_, v) = r.evaluate(b"1.3.6.2|2:numeric|initial=99,rate=1,max=99", &exact()).unwrap();
    assert_eq!(v, Some(SnmpValue::Integer(0)));
    let (_, v) = r.evaluate(b"1.3.6.3|2:numeric|start=5,max=6,function=osc,step=3", &exact()).unwrap();
    assert_eq!(v, Some(SnmpValue::Integer(6)));
    assert_eq!(r.take_delay(), 0);
    let (_, v) = r.evaluate(b"1.3.6.1|4:delay|value=hi&delay=20", &exact()).unwrap();
    assert_eq!(v, Some(SnmpValue::OctetString(b"hi".to_vec())));
    let (_, v) = r.evaluate(b"1.3.6.1|4:delay|value=x", &exact()).unwrap();
    assert_eq!(v, Some(SnmpValue::OctetString(b"x".to_vec())));
    assert_eq!(r.take_delay(), 520);
    assert_eq!(r.take_delay(), 0);
    let (_, v) = r.evaluate(b"1.3.6.1|2:writecache|7", &exact()).unwrap();
    assert_eq!(v, Some(SnmpValue::Integer(7)));
    let set = EvalContext { exact_match: true, set_flag: true, ..Default::default() };
    let (_, v) = r.evaluate(b"1.3.6.1|2:writecache|8", &set).unwrap();
    assert_eq!(v, Some(SnmpValue::Integer(8)));
    // the cached value now answers for the OID
    let (_, v) = r.evaluate(b"1.3.6.1|2:writecache|9", &exact()).unwrap();
    assert_eq!(v, Some(SnmpValue::Integer(8)));
}

#[test]
fn walk_and_dump_records() {
    let mut w = WalkRecord::new();
    let (o, v) = w.evaluate(b".1.3.6.1.2.1.1.3.0 = Timeticks: (12345) 0:02:03.45", &exact()).unwrap();
    assert_eq!(o, Oid::new(vec![1, 3, 6, 1, 2, 1, 1, 3, 0]));
    assert_eq!(v, Some(SnmpValue::TimeTicks(12345)));
    let (_, v) = w.evaluate(b".1.3 = Hex-STRING: 0A 0B", &exact()).unwrap();
    assert_eq!(v, Some(SnmpValue::OctetString(vec![10, 11])));
    assert!(w.format(&o, &SnmpValue::Null).is_err());
    let mut d = DumpRecord::new();
    let (_, v) = d.evaluate(b"1.3.6|2|3", &exact()).unwrap();
    assert_eq!(v, Some(SnmpValue::Integer(3)));
    assert_eq!(d.format(&o, &SnmpValue::Integer(1)).unwrap(), b"1.3.6.1.2.1.1.3.0|2|1\n".to_vec());
    assert_eq!(d.extension(), "dump");
}

#[test]
fn numeric_context_persists_per_oid() {
    let mut r = SnmprecRecord::new();
    let ctx = exact();
    let o = Oid::new(vec![1, 3, 6, 1]);
    let p = Oid::new(vec![1, 3, 6, 2]);
    assert_eq!(r.evaluate_value(&o, "2:numeric", "start=5,step=2", &ctx).unwrap(), SnmpValue::Integer(7));
    assert_eq!(r.evaluate_value(&o, "2:numeric", "start=5,step=2", &ctx).unwrap(), SnmpValue::Integer(9));
    // another OID has a context of its own
    assert_eq!(r.evaluate_value(&p, "2:numeric", "start=5,step=2", &ctx).unwrap(), SnmpValue::Integer(7));
    assert_eq!(r.evaluate_value(&o, "2:numeric", "start=5,step=2", &ctx).unwrap(), SnmpValue::Integer(11));
    // through whole lines too
    let (_, v) = r.evaluate(b"1.3.6.9|66:numeric|min=0,max=3,function=osc,start=2", &ctx).unwrap();
    assert_eq!(v, Some(SnmpValue::Gauge32(3)));
    let (_, v) = r.evaluate(b"1.3.6.9|66:numeric|min=0,max=3,function=osc,start=2", &ctx).unwrap();
    assert_eq!(v, Some(SnmpValue::Gauge32(2)));
}
