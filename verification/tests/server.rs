use snmpsim::ber::{decode_message, encode_message, encode_response, Pdu, VarBind};
use snmpsim::datafile::DataFile;
use snmpsim::oid::Oid;
use snmpsim::record::RecordKind;
use snmpsim::reporting::{Flushed, ReportingManager};
use snmpsim::server::{process_packet, EngineConfig, ServerState};
use snmpsim::snmp_value::SnmpValue;

const DATA: &[u8] = b"1.3.6.1.2.1.1.1.0|4|Linux box\n\
1.3.6.1.2.1.1.3.0|67|100\n\
1.3.6.1.2.1.1.5.0|4|host\n";

fn state() -> ServerState {
    let mut engine = EngineConfig::new("auto");
    let df = DataFile::load("public.snmprec", RecordKind::Snmprec, DATA.to_vec());
    let i = engine.add_data_file(df);
    engine.add_community("public", i);
    let mut s = ServerState::new(64, ReportingManager::json("/tmp/m.json"));
    s.add_engine(engine);
    s
}

/// A request message: a GetResponse encoding with its PDU tag changed.
fn request(tag: u8, community: &[u8], f2: i64, f3: i64, oids: &[&str]) -> Vec<u8> {
    let vbs: Vec<VarBind> = oids
        .iter()
        .map(|o| VarBind { oid: o.parse().unwrap(), value: SnmpValue::Null })
        .collect();
    let mut b = encode_response(1, community, 42, f2, f3, &vbs);
    let pos = if b[1] & 0x80 != 0 { 2 + (b[1] & 0x7f) as usize } else { 2 } + 3 + 2 + community.len();
    assert_eq!(b[pos], 0xa2);
    b[pos] = tag;
    b
}

fn answer(bytes: &[u8]) -> Vec<(String, SnmpValue)> {
    let m = decode_message(bytes).unwrap();
    match m.pdu {
        Pdu::GetResponse(p) => {
            assert_eq!(p.request_id, 42);
            p.var_binds.into_iter().map(|vb| (vb.oid.to_dotted_string(), vb.value)).collect()
        }
        _ => panic!("expected a response"),
    }
}

#[test]
fn get_request_is_answered() {
    let mut s = state();
    let r = process_packet(&request(0xa0, b"public", 0, 0, &["1.3.6.1.2.1.1.5.0", "1.3.6.1.9"]), &mut s).unwrap();
    assert_eq!(
        answer(&r),
        vec![
            ("1.3.6.1.2.1.1.5.0".to_string(), SnmpValue::OctetString(b"host".to_vec())),
            ("1.3.6.1.9".to_string(), SnmpValue::NoSuchInstance),
        ]
    );
    let (path, metrics) = json_flush(&s.reporting);
    assert_eq!(path, "/tmp/m.json");
    assert_eq!(metrics.len(), 1);
    assert_eq!(metrics[0].0, "public.snmprec");
    assert_eq!(metrics[0].1.transport_calls(), 1);
    assert_eq!(metrics[0].1.datafile_calls(), 1);
}

#[test]
fn getnext_and_getbulk() {
    let mut s = state();
    let r = process_packet(&request(0xa1, b"public", 0, 0, &["1.3.6.1.2.1.1.3.0"]), &mut s).unwrap();
    assert_eq!(answer(&r), vec![("1.3.6.1.2.1.1.5.0".to_string(), SnmpValue::OctetString(b"host".to_vec()))]);
    // non-repeaters 1, max-repetitions 5
    let r = process_packet(&request(0xa5, b"public", 1, 5, &["1.3", "1.3.6.1.2.1.1.1.0"]), &mut s).unwrap();
    assert_eq!(
        answer(&r),
        vec![
            ("1.3.6.1.2.1.1.1.0".to_string(), SnmpValue::OctetString(b"Linux box".to_vec())),
            ("1.3.6.1.2.1.1.3.0".to_string(), SnmpValue::TimeTicks(100)),
            ("1.3.6.1.2.1.1.5.0".to_string(), SnmpValue::OctetString(b"host".to_vec())),
            ("1.3.6.1.2.1.1.5.0".to_string(), SnmpValue::EndOfMibView),
        ]
    );
    let (_, metrics) = json_flush(&s.reporting);
    assert_eq!(metrics[0].1.transport_calls(), 2);
}

#[test]
fn getbulk_stops_at_max_var_binds() {
    let mut s = state();
    s.max_var_binds = 2;
    let r = process_packet(&request(0xa5, b"public", 0, 10, &["1.3"]), &mut s).unwrap();
    assert_eq!(answer(&r).len(), 2);
    let r = process_packet(&request(0xa0, b"public", 0, 0, &["1.3", "1.4", "1.5"]), &mut s).unwrap();
    assert_eq!(answer(&r).len(), 2);
}

#[test]
fn requests_without_answer() {
    let mut s = state();
    assert!(process_packet(&[1, 2, 3], &mut s).is_none());
    assert!(process_packet(&request(0xa0, b"private", 0, 0, &["1.3"]), &mut s).is_none());
    assert!(process_packet(&request(0xa2, b"public", 0, 0, &["1.3"]), &mut s).is_none());
    assert!(json_flush(&s.reporting).1.is_empty());
    let set = process_packet(&request(0xa3, b"public", 0, 0, &["1.3.6.1.2.1.1.5.0"]), &mut s).unwrap();
    assert_eq!(answer(&set), vec![("1.3.6.1.2.1.1.5.0".to_string(), SnmpValue::OctetString(b"host".to_vec()))]);
    assert_eq!(s.take_delay(), 0);
    let unused = Oid::new(vec![1]);
    assert_eq!(unused.len(), 1);
}

#[test]
fn snmpv3_gets_a_report() {
    let mut s = state();
    let mut msg = encode_response(3, b"public", 77, 0, 0, &[]);
    // turn the PDU into a GET request
    let pos = 2 + 3 + 2 + 6;
    assert_eq!(msg[pos], 0xa2);
    msg[pos] = 0xa0;
    let vb = VarBind { oid: "1.3.6.1.6.3.11.2.1.1.0".parse().unwrap(), value: SnmpValue::Counter32(1) };
    let expected = encode_message(0xa8, 3, b"public", 77, 0, 0, &[vb]);
    assert_eq!(process_packet(&msg, &mut s), Some(expected.clone()));
    assert_eq!(expected[pos], 0xa8);
    // nothing was counted
    assert!(json_flush(&s.reporting).1.is_empty());
}

struct Recorder {
    calls: std::sync::Arc<std::sync::Mutex<Vec<Vec<(String, u64, u64, u64)>>>>,
}

impl snmpsim::reporting::Reporter for Recorder {
    fn report(&self, metrics: &Vec<(String, snmpsim::reporting::Metrics)>) {
        self.calls.lock().unwrap().push(
            metrics
                .iter()
                .map(|(f, m)| (f.clone(), m.transport_calls, m.datafile_calls, m.varbind_count))
                .collect(),
        );
    }
}

#[test]
fn flush_hands_counts_to_the_reporter() {
    let calls = std::sync::Arc::new(std::sync::Mutex::new(Vec::new()));
    let mut m = ReportingManager::new(Box::new(Recorder { calls: calls.clone() }));
    m.update("a", true, false, false, 2);
    m.update("b", false, true, false, 1);
    m.update("a", true, true, false, 3);
    let handed = match m.flush() {
        Flushed::Reported(s) => s,
        _ => panic!("a manager with a reporter reports"),
    };
    assert_eq!(
        *calls.lock().unwrap(),
        vec![vec![("a".to_string(), 2, 1, 5), ("b".to_string(), 0, 1, 1)]]
    );
    assert_eq!(handed.len(), 2);
    assert_eq!(handed[0].1.varbind_count, 5);
    m.flush();
    assert_eq!(calls.lock().unwrap().len(), 2);
    let c = calls.lock().unwrap();
    assert_eq!(c[1], c[0]);
}

#[test]
fn null_manager_discards() {
    let mut m = ReportingManager::null();
    m.update("a", true, true, false, 4);
    assert!(matches!(m.flush(), Flushed::Discarded));
    assert!(m.reporter.is_none() && m.json_path.is_none());
}

fn json_flush(m: &ReportingManager) -> (String, Vec<(String, snmpsim::reporting::Metrics)>) {
    match m.flush() {
        Flushed::Json(p, s) => (p, s),
        _ => panic!("a JSON manager gives its file"),
    }
}

#[test]
fn unencodable_answer_is_not_counted() {
    let data: &[u8] = b"4294967295.4294967295|2|1\n";
    let mut engine = EngineConfig::new("auto");
    let df = DataFile::load("odd.snmprec", RecordKind::Snmprec, data.to_vec());
    let i = engine.add_data_file(df);
    engine.add_community("public", i);
    let mut s = ServerState::new(64, ReportingManager::json("/tmp/m.json"));
    s.add_engine(engine);
    assert!(process_packet(&request(0xa1, b"public", 0, 0, &["1.3"]), &mut s).is_none());
    assert!(json_flush(&s.reporting).1.is_empty());
}
