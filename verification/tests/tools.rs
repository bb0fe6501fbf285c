use snmpsim::daemon::{drop_privileges, switch_target};
use snmpsim::convert::{convert_line, detect_format, Flow, Format, LineOutcome, Tally};
use snmpsim::confdir::{cache_dir, data_dirs, variation_dirs};
use snmpsim::datafile::{classify_data_file, DataFile};
use snmpsim::endpoint::split_endpoint;
use snmpsim::grammar::snmprec::SnmprecGrammar;
use snmpsim::oid::Oid;
use snmpsim::record::snmprec::{CompressedSnmprecRecord, SnmprecRecord};
use snmpsim::record::walk::WalkRecord;
use snmpsim::record::{kind_for_extension, RecordHandler, RecordKind};
use snmpsim::reporting::configure_reporting;
use snmpsim::server::EngineConfig;
use snmpsim::snmp_value::{Ipv4Addr, SnmpValue};
use snmpsim::variation::VariationModuleRegistry;

#[test]
fn endpoint_with_port() {
    assert_eq!(split_endpoint("0.0.0.0:161").unwrap(), ("0.0.0.0".to_string(), 161));
    assert_eq!(split_endpoint("127.0.0.1:1161").unwrap(), ("127.0.0.1".to_string(), 1161));
}

#[test]
fn endpoint_bracketed_v6() {
    assert_eq!(split_endpoint("[::1]:161").unwrap(), ("::1".to_string(), 161));
    assert_eq!(split_endpoint("[::]:1161").unwrap(), ("::".to_string(), 1161));
}

#[test]
fn endpoint_without_port_defaults_to_161() {
    assert_eq!(split_endpoint("localhost").unwrap(), ("localhost".to_string(), 161));
}

#[test]
fn endpoint_bad_port() {
    assert_eq!(
        split_endpoint("1.2.3.4:http").unwrap_err(),
        "Invalid port 'http': invalid digit found in string"
    );
    assert_eq!(
        split_endpoint("1.2.3.4:70000").unwrap_err(),
        "Invalid port '70000': number too large to fit in target type"
    );
    assert_eq!(
        split_endpoint("1.2.3.4:").unwrap_err(),
        "Invalid port '': cannot parse integer from empty string"
    );
}

#[test]
fn value_display_text() {
    assert_eq!(SnmpValue::Integer(-42).to_display_string(), "-42");
    assert_eq!(SnmpValue::OctetString(b"Linux".to_vec()).to_display_string(), "Linux");
    assert_eq!(SnmpValue::OctetString(vec![0x61, 0xff]).to_display_string(), "a\u{fffd}");
    assert_eq!(SnmpValue::Null.to_display_string(), "NULL");
    let oid: Oid = "1.3.6.1".parse().unwrap();
    assert_eq!(SnmpValue::ObjectIdentifier(oid).to_display_string(), "1.3.6.1");
    assert_eq!(SnmpValue::IpAddress(Ipv4Addr(10, 0, 0, 1)).to_display_string(), "10.0.0.1");
    assert_eq!(SnmpValue::Counter32(7).to_display_string(), "7");
    assert_eq!(SnmpValue::Gauge32(8).to_display_string(), "8");
    assert_eq!(SnmpValue::TimeTicks(12345).to_display_string(), "12345");
    assert_eq!(SnmpValue::Opaque(vec![0xde, 0xad, 0x01]).to_display_string(), "0xdead01");
    assert_eq!(SnmpValue::Counter64(u64::MAX).to_display_string(), "18446744073709551615");
    assert_eq!(SnmpValue::NoSuchObject.to_display_string(), "noSuchObject");
    assert_eq!(SnmpValue::NoSuchInstance.to_display_string(), "noSuchInstance");
    assert_eq!(SnmpValue::EndOfMibView.to_display_string(), "endOfMibView");
}

#[test]
fn data_file_display() {
    let df = DataFile::load("data/public.snmprec", RecordKind::Snmprec, Vec::new());
    assert_eq!(df.display_string(), "DataFile(\"data/public.snmprec\")");
}

#[test]
fn reporting_methods() {
    let m = configure_reporting("json:/var/m.json");
    assert_eq!(m.json_path.as_deref(), Some("/var/m.json"));
    let m = configure_reporting("json");
    assert_eq!(m.json_path.as_deref(), Some("/tmp/snmpsim-metrics.json"));
    let m = configure_reporting("null");
    assert_eq!(m.json_path, None);
    let m = configure_reporting("jsonx:/a");
    assert_eq!(m.json_path, None);
    assert!(m.metrics.is_empty());
}

#[test]
fn record_kind_by_extension() {
    assert_eq!(kind_for_extension("snmprec"), Some(RecordKind::Snmprec));
    assert_eq!(kind_for_extension("snmprec.bz2"), Some(RecordKind::CompressedSnmprec));
    assert_eq!(kind_for_extension("snmpwalk"), Some(RecordKind::Walk));
    assert_eq!(kind_for_extension("dump"), Some(RecordKind::Dump));
    assert_eq!(kind_for_extension("walk"), None);
    assert_eq!(kind_for_extension("mvc"), None);
}

#[test]
fn long_community_gets_alias() {
    let mut engine = EngineConfig::new("auto");
    let df = DataFile::load("a.snmprec", RecordKind::Snmprec, Vec::new());
    engine.add_loaded("public", "digest", df);
    assert_eq!(engine.communities, vec![("public".to_string(), 0)]);
    let long = "c".repeat(33);
    let df = DataFile::load("b.snmprec", RecordKind::Snmprec, Vec::new());
    engine.add_loaded(&long, "digest", df);
    assert_eq!(engine.data_files.len(), 2);
    assert_eq!(
        engine.communities,
        vec![("public".to_string(), 0), (long.clone(), 1), ("digest".to_string(), 1)]
    );
    let exactly = "d".repeat(32);
    let df = DataFile::load("c.snmprec", RecordKind::Snmprec, Vec::new());
    engine.add_loaded(&exactly, "other", df);
    assert_eq!(engine.communities.len(), 4);
}

#[test]
fn defaults_match_new() {
    let _g: SnmprecGrammar = Default::default();
    let r: SnmprecRecord = Default::default();
    assert_eq!(r.extension(), "snmprec");
    let c: CompressedSnmprecRecord = Default::default();
    assert_eq!(c.extension(), "snmprec.bz2");
    let w: WalkRecord = Default::default();
    assert_eq!(w.extension(), "snmpwalk");
    let reg: VariationModuleRegistry = Default::default();
    assert!(reg.names().is_empty());
}

#[test]
fn formats_and_detection() {
    assert_eq!(Format::Snmprec.extension(), "snmprec");
    assert_eq!(Format::Walk.extension(), "walk");
    assert_eq!(Format::Dump.extension(), "dump");
    assert_eq!(detect_format("x/public.snmprec"), Some(Format::Snmprec));
    assert_eq!(detect_format("public.snmprec.bz2"), Some(Format::Snmprec));
    assert_eq!(detect_format("a.snmpwalk"), Some(Format::Walk));
    assert_eq!(detect_format("a.walk"), Some(Format::Walk));
    assert_eq!(detect_format("a.dump"), Some(Format::Dump));
    assert_eq!(detect_format("a.txt"), None);
}

#[test]
fn convert_walk_to_snmprec() {
    let mut input = RecordHandler::new(RecordKind::Walk);
    let output = RecordHandler::new(RecordKind::Snmprec);
    let none: Option<Oid> = None;
    match convert_line(
        &mut input,
        &output,
        &none,
        &none,
        ".1.3.6.1.2.1.1.1.0 = STRING: \"Linux netdev02\"",
    ) {
        LineOutcome::Converted(b) => assert_eq!(b, b"1.3.6.1.2.1.1.1.0|4|Linux netdev02\n"),
        _ => panic!("expected a converted line"),
    }
    assert!(matches!(convert_line(&mut input, &output, &none, &none, "  # note"), LineOutcome::Blank));
    assert!(matches!(convert_line(&mut input, &output, &none, &none, ""), LineOutcome::Blank));
    assert!(matches!(
        convert_line(&mut input, &output, &none, &none, "garbage"),
        LineOutcome::ParseError(_)
    ));
}

#[test]
fn convert_range_and_walk_output() {
    let mut input = RecordHandler::new(RecordKind::Snmprec);
    let output = RecordHandler::new(RecordKind::Snmprec);
    let start: Option<Oid> = Some("1.3.6.1.2".parse().unwrap());
    let stop: Option<Oid> = Some("1.3.6.1.5".parse().unwrap());
    assert!(matches!(
        convert_line(&mut input, &output, &start, &stop, "1.3.6.1.1|2|1"),
        LineOutcome::BeforeStart
    ));
    assert!(matches!(
        convert_line(&mut input, &output, &start, &stop, "1.3.6.1.5|2|1"),
        LineOutcome::Converted(_)
    ));
    assert!(matches!(
        convert_line(&mut input, &output, &start, &stop, "1.3.6.1.5.1|2|1"),
        LineOutcome::PastStop
    ));
    let walk_out = RecordHandler::new(RecordKind::Walk);
    assert!(matches!(
        convert_line(&mut input, &walk_out, &start, &stop, "1.3.6.1.3|2|1"),
        LineOutcome::FormatError(_)
    ));
}

#[test]
fn tally_counts_and_flow() {
    let mut t = Tally::new();
    assert!(matches!(t.step(&LineOutcome::Converted(b"x\n".to_vec()), false), Flow::Write(w) if w == b"x\n"));
    assert!(matches!(t.step(&LineOutcome::Blank, false), Flow::Next));
    assert!(matches!(t.step(&LineOutcome::NoValue, false), Flow::Next));
    assert!(matches!(t.step(&LineOutcome::BeforeStart, false), Flow::Next));
    assert_eq!(t, Tally { lines: 4, converted: 1, skipped: 1 });
    let e = snmpsim::error::SnmpsimError::Parse("bad".to_string());
    assert!(matches!(t.step(&LineOutcome::ParseError(e), true), Flow::Next));
    assert_eq!(t.skipped, 2);
    let e = snmpsim::error::SnmpsimError::Parse("bad".to_string());
    assert!(matches!(t.step(&LineOutcome::FormatError(e), false), Flow::Exit));
    assert!(matches!(t.read_failed(true), Flow::Next));
    assert!(matches!(t.read_failed(false), Flow::Exit));
    assert!(matches!(t.step(&LineOutcome::PastStop, false), Flow::Stop));
    assert_eq!(t, Tally { lines: 9, converted: 1, skipped: 3 });
}

#[test]
fn unprintable_octets_are_written_as_hex() {
    let r = SnmprecRecord::new();
    let oid: Oid = "1.3.6.1".parse().unwrap();
    let line = r.format(&oid, &SnmpValue::OctetString(vec![0, 1, 2, 200])).unwrap();
    assert_eq!(line, b"1.3.6.1|4x|000102c8\n".to_vec());
    let line = r.format(&oid, &SnmpValue::Opaque(vec![0xab, 0x0c])).unwrap();
    assert_eq!(line, b"1.3.6.1|68x|ab0c\n".to_vec());
}

#[test]
fn default_directories() {
    assert_eq!(
        data_dirs(Some("/home/u"), false),
        vec![
            "/home/u/.snmpsim/data".to_string(),
            "/usr/share/snmpsim/data".to_string(),
            "/usr/local/share/snmpsim/data".to_string(),
        ]
    );
    assert_eq!(
        variation_dirs(None, true),
        vec![
            "/usr/local/share/snmpsim/variation".to_string(),
            "/usr/share/snmpsim/variation".to_string(),
            "/usr/local/share/snmpsim/variation".to_string(),
        ]
    );
    assert_eq!(cache_dir("/tmp"), "/tmp/snmpsim");
    assert_eq!(cache_dir("/tmp/"), "/tmp/snmpsim");
}

#[test]
fn data_files_are_classified() {
    assert_eq!(
        classify_data_file("public.snmprec", "self/public.snmprec"),
        Some(("snmprec".to_string(), "public".to_string()))
    );
    assert_eq!(
        classify_data_file("127.0.0.1.snmpwalk", "1.3.6.1.6.1.1.0/127.0.0.1.snmpwalk"),
        Some(("snmpwalk".to_string(), "1.3.6.1.6.1.1.0/127.0.0.1".to_string()))
    );
    assert_eq!(classify_data_file("notes.txt", "notes.txt"), None);
}

#[test]
fn compressed_records_read_as_snmprec() {
    let mut c = CompressedSnmprecRecord::new();
    let ctx = snmpsim::record::EvalContext { exact_match: true, ..Default::default() };
    let (o, v) = c.evaluate(b"1.3.6.1.2.1.1.5.0|4|host", &ctx).unwrap();
    assert_eq!(c.format_oid(&o), "1.3.6.1.2.1.1.5.0");
    assert_eq!(v, Some(SnmpValue::OctetString(b"host".to_vec())));
    assert_eq!(c.format(&o, &SnmpValue::Gauge32(5)).unwrap(), b"1.3.6.1.2.1.1.5.0|66|5\n".to_vec());
    assert!(c.evaluate_oid("1.x").is_err());
}

#[test]
fn privileges_need_root_and_both_names() {
    assert!(drop_privileges(true, Some("nobody"), None).is_ok());
    assert!(drop_privileges(true, None, Some("nogroup")).is_ok());
    assert!(drop_privileges(false, Some("a"), Some("b")).is_ok());
    assert_eq!(switch_target(true, Some("nobody"), None), None);
    assert_eq!(switch_target(false, Some("a"), Some("b")), None);
    assert_eq!(
        switch_target(true, Some("a"), Some("b")),
        Some(("a".to_string(), "b".to_string()))
    );
}

#[test]
fn digests_are_md5_hex() {
    assert_eq!(snmpsim::server::md5_hex(b""), "d41d8cd98f00b204e9800998ecf8427e");
    assert_eq!(
        snmpsim::server::md5_hex(b"abcdefghijklmnopqrstuvwxyz"),
        "c3fcd3d76192e4007dfb496cca67e13b"
    );
}
