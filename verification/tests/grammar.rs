use snmpsim::error::SnmpsimError;
use snmpsim::grammar::dump::DumpGrammar;
use snmpsim::grammar::snmprec::SnmprecGrammar;
use snmpsim::grammar::walk::WalkGrammar;
use snmpsim::grammar::Grammar;

fn parse_message(e: SnmpsimError) -> String {
    match e {
        SnmpsimError::Parse(m) => m,
        _ => panic!("not a parse error"),
    }
}

#[test]
fn test_parse_basic() {
    let g = SnmprecGrammar::new();
    let (oid, tag, val) = g.parse(b"1.3.6.1.2.1.1.1.0|4|Linux 4.15").unwrap();
    assert_eq!(oid, "1.3.6.1.2.1.1.1.0");
    assert_eq!(tag, "4");
    assert_eq!(val, "Linux 4.15");
}

#[test]
fn snmprec_test_parse_timeticks() {
    let g = SnmprecGrammar::new();
    let (oid, tag, val) = g
        .parse(b"1.3.6.1.2.1.1.3.0|67:numeric|rate=100,initial=123999999")
        .unwrap();
    assert_eq!(oid, "1.3.6.1.2.1.1.3.0");
    assert_eq!(tag, "67:numeric");
    assert_eq!(val, "rate=100,initial=123999999");
}

#[test]
fn test_parse_hex_tag() {
    let g = SnmprecGrammar::new();
    let (_, tag, _) = g.parse(b"1.3.6.1.2.1.2.2.1.6.1|4x|001122334455").unwrap();
    assert_eq!(tag, "4x");
}

#[test]
fn test_unpack_tag() {
    assert_eq!(SnmprecGrammar::unpack_tag("4x"), ("4", Some('x')));
    assert_eq!(SnmprecGrammar::unpack_tag("4e"), ("4", Some('e')));
    assert_eq!(SnmprecGrammar::unpack_tag("2"), ("2", None));
}

#[test]
fn test_split_module() {
    assert_eq!(SnmprecGrammar::split_module("4:delay"), ("4", Some("delay")));
    assert_eq!(SnmprecGrammar::split_module("4x:redis"), ("4x", Some("redis")));
    assert_eq!(SnmprecGrammar::split_module("66"), ("66", None));
}

#[test]
fn test_evaluate_escaped() {
    let bytes = SnmprecGrammar::evaluate_escaped("hello\\nworld").unwrap();
    assert_eq!(bytes, b"hello\nworld");
}

#[test]
fn test_build() {
    let g = SnmprecGrammar::new();
    let line = g.build("1.3.6.1", "4", "test").unwrap();
    assert_eq!(line, b"1.3.6.1|4|test\n");
}

#[test]
fn snmprec_parse_errors() {
    let g = SnmprecGrammar::new();
    let e = g.parse(b"  1.3.6|4  ").unwrap_err();
    assert_eq!(
        parse_message(e),
        "Broken .snmprec record: expected OID|tag|value, got \"1.3.6|4\""
    );
    let e = g.parse(b" |4|x").unwrap_err();
    assert_eq!(parse_message(e), "Empty OID or tag in record: \"|4|x\"");
    let e = g.parse(&[0xff, b'|', b'4', b'|', b'x']).unwrap_err();
    assert_eq!(
        parse_message(e),
        "Non-UTF8 line: invalid utf-8 sequence of 1 bytes from index 0"
    );
    let e = g.build("", "4", "x").unwrap_err();
    assert_eq!(parse_message(e), "Empty OID/tag: </4>");
}

#[test]
fn snmprec_value_keeps_pipes_and_leading_space() {
    let g = SnmprecGrammar::new();
    let (oid, tag, val) = g.parse(b" 1.3.6.1 | 4 | a|b \n").unwrap();
    assert_eq!(oid, "1.3.6.1");
    assert_eq!(tag, "4");
    assert_eq!(val, " a|b");
}

#[test]
fn build_then_parse_gives_fields_back() {
    for g in [true, false] {
        let (o, t, v) = ("1.3.6.1.2.1.1.5.0", "4x", "6e6574 | x");
        let line = if g {
            SnmprecGrammar::new().build(o, t, v).unwrap()
        } else {
            DumpGrammar::new().build(o, t, v).unwrap()
        };
        let back = if g {
            SnmprecGrammar::new().parse(&line).unwrap()
        } else {
            DumpGrammar::new().parse(&line).unwrap()
        };
        assert_eq!(back, (o.to_string(), t.to_string(), v.to_string()));
    }
}

#[test]
fn escaped_string_errors() {
    let e = SnmprecGrammar::evaluate_escaped("abc\\").unwrap_err();
    assert_eq!(parse_message(e), "Trailing backslash in escaped string");
    let e = SnmprecGrammar::evaluate_escaped("\\x4").unwrap_err();
    assert_eq!(parse_message(e), "Truncated \\x escape");
    let e = SnmprecGrammar::evaluate_escaped("\\xzz").unwrap_err();
    assert_eq!(parse_message(e), "Invalid \\x escape: invalid digit found in string");
    let e = SnmprecGrammar::evaluate_escaped("\\q").unwrap_err();
    assert_eq!(parse_message(e), "Unknown escape character: q");
    let ok = SnmprecGrammar::evaluate_escaped("\\x41\\t\\\\\\'\\\"").unwrap();
    assert_eq!(ok, b"A\t\\'\"");
}

#[test]
fn dump_parse_errors() {
    let g = DumpGrammar::new();
    let e = g.parse(b"abc").unwrap_err();
    assert_eq!(parse_message(e), "Broken .dump record: \"abc\"");
    let e = g.parse(b"1.3| |x").unwrap_err();
    assert_eq!(parse_message(e), "Empty OID or tag in .dump record: \"1.3| |x\"");
}

#[test]
fn test_parse_string() {
    let g = WalkGrammar::new();
    let (oid, tag, val) = g
        .parse(b".1.3.6.1.2.1.1.1.0 = STRING: \"Linux netdev02\"")
        .unwrap();
    assert_eq!(oid, "1.3.6.1.2.1.1.1.0");
    assert_eq!(tag, "4");
    assert_eq!(val, "Linux netdev02");
}

#[test]
fn test_parse_integer() {
    let g = WalkGrammar::new();
    let (_, tag, val) = g
        .parse(b".1.3.6.1.2.1.2.2.1.3.1 = INTEGER: ethernetCsmacd(6)")
        .unwrap();
    assert_eq!(tag, "2");
    assert_eq!(val, "6");
}

#[test]
fn walk_test_parse_timeticks() {
    let g = WalkGrammar::new();
    let (_, tag, val) = g
        .parse(b".1.3.6.1.2.1.1.3.0 = Timeticks: (12345) 0:02:03.45")
        .unwrap();
    assert_eq!(tag, "67");
    assert_eq!(val, "12345");
}

#[test]
fn test_parse_null() {
    let g = WalkGrammar::new();
    let (_, tag, val) = g.parse(b".1.3.6.1.2.1.1.1.0 = NULL").unwrap();
    assert_eq!(tag, "5");
    assert_eq!(val, "");
}

#[test]
fn walk_filters() {
    let g = WalkGrammar::new();
    let p = |l: &[u8]| g.parse(l).unwrap();
    assert_eq!(p(b".1.3 = INTEGER: 60 seconds").2, "60");
    assert_eq!(p(b".1.3 = INTEGER: -7").2, "-7");
    assert_eq!(p(b".1.3 = STRING: 60:9c:9f:ec:a3:38"), ("1.3".into(), "4".into(), "609c9feca338".to_string()));
    assert_eq!(p(b".1.3 = Hex-STRING: 00 C0 FF 43   [...C]").1, "4x");
    assert_eq!(p(b".1.3 = Hex-STRING: 00 C0 FF 43   [...C]").2, "00C0FF43");
    assert_eq!(p(b".1.3 = BITS: 5B 00 00 00   clear(1)"), ("1.3".into(), "4".into(), "5B000000".into()));
    assert_eq!(p(b".1.3 = Gauge32: 42"), ("1.3".into(), "66".into(), "42".into()));
    assert_eq!(p(b".1.3 = OPAQUE: 01 02 03").2, "010203");
    assert_eq!(p(b".1.3 = OPAQUE: Float: 1.5").2, "Float: 1.5");
    assert_eq!(p(b".1.3 = Network Address: ac:1e:01:1e"), ("1.3".into(), "64".into(), "172.30.1.30".into()));
    assert_eq!(p(b".1.3 = OID: .1.3.6.1.4.1").1, "6");
    assert_eq!(p(b".1.3 = Counter64: 7").1, "70");
    assert_eq!(p(b".1.3 = \"\""), ("1.3".into(), "4".into(), "".into()));
    assert_eq!(p(b".1.3 = Wrong Type (should be INTEGER): STRING: \"x\""), ("1.3".into(), "4".into(), "x".into()));
    assert_eq!(p(b".1.3 = No more variables left in this MIB View (It is past the end of the MIB tree)"), ("1.3".into(), "4".into(), "".into()));
    assert_eq!(p(b".1.3 = Strange: value"), ("1.3".into(), "4".into(), "value".into()));
    assert_eq!(p(b".1.3 = (17) 0:00:00.17").1, "67");
    assert_eq!(p(b".1.3 = (17) 0:00:00.17").2, "17");
}

#[test]
fn walk_errors() {
    let g = WalkGrammar::new();
    assert_eq!(parse_message(g.parse(b"   ").unwrap_err()), "Empty or comment line");
    assert_eq!(parse_message(g.parse(b"# x = y").unwrap_err()), "Empty or comment line");
    assert_eq!(
        parse_message(g.parse(b".1.3 STRING x").unwrap_err()),
        "Broken walk record (no ' = '): \".1.3 STRING x\""
    );
    assert_eq!(
        parse_message(g.build("1.3", "4", "x").unwrap_err()),
        "WalkGrammar does not support build; convert to snmprec first"
    );
    // bytes outside ASCII are dropped
    let (_, _, v) = g.parse(b".1.3 = STRING: a\xc3\xa9b").unwrap();
    assert_eq!(v, "ab");
}
