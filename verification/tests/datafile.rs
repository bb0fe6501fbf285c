use std::io::Read;
use snmpsim::datafile::{build_index, derive_community_name, match_extension, read_record, DataFile};
use snmpsim::oid::Oid;
use snmpsim::record::{RecordHandler, RecordKind};
use snmpsim::snmp_value::SnmpValue;

#[test]
fn test_derive_community_name() {
    assert_eq!(derive_community_name("public.snmprec", "snmprec"), "public");
    assert_eq!(derive_community_name("self/public.snmprec", "snmprec"), "public");
}

#[test]
fn community_names_and_extensions() {
    assert_eq!(
        derive_community_name("1.3.6.1.6.1.1.0/127.0.0.1.snmprec", "snmprec"),
        "1.3.6.1.6.1.1.0/127.0.0.1"
    );
    assert_eq!(derive_community_name("self\\a\\b.walk", "walk"), "a/b");
    assert_eq!(derive_community_name("noext", "dump"), "noext");
    assert_eq!(match_extension("x.snmprec"), Some("snmprec"));
    assert_eq!(match_extension("x.snmprec.bz2"), Some("snmprec.bz2"));
    assert_eq!(match_extension("a.walk"), Some("walk"));
    assert_eq!(match_extension("a.txt"), None);
    assert_eq!(match_extension("snmprec"), None);
}

const DATA: &[u8] = b"# comment\n\
1.3.6.1.2.1.1.1.0|4|Linux box\n\
\n\
1.3.6.1.2.1.1.3.0|67|100\n\
1.3.6.1.2.1.2|:subtree|\n\
broken line\n\
1.3.6.1.2.1.1.1.0|4|Replaced\n\
1.3.6.1.4.1.1|2|5\n";

fn load() -> DataFile {
    DataFile::load("test.snmprec", RecordKind::Snmprec, DATA.to_vec())
}

fn oid(s: &str) -> Oid {
    s.parse().unwrap()
}

#[test]
fn index_of_a_file() {
    let idx = build_index(RecordKind::Snmprec, DATA);
    let keys: Vec<String> = idx.iter().map(|(o, _)| o.to_dotted_string()).collect();
    assert_eq!(
        keys,
        vec!["1.3.6.1.2.1.1.1.0", "1.3.6.1.2.1.1.3.0", "1.3.6.1.2.1.2", "1.3.6.1.4.1.1"]
    );
    // the later line for the same OID wins
    let first = idx[0].1;
    assert_eq!(&DATA[first.offset as usize..first.offset as usize + 24], b"1.3.6.1.2.1.1.1.0|4|Repl");
    let sub = idx[2].1;
    assert!(sub.subtree_flag);
    // the record after the subtree record (a broken line in between is skipped)
    assert_eq!(first.prev_offset, Some(sub.offset));
    assert_eq!(idx[3].1.prev_offset, None);
    assert_eq!(load().len(), 4);
}

#[test]
fn get_and_getnext() {
    let df = load();
    let mut h = RecordHandler::new(RecordKind::Snmprec);
    let reqs = vec![
        (oid("1.3.6.1.2.1.1.1.0"), SnmpValue::Null),
        (oid("1.3.6.1.2.1.1.2.0"), SnmpValue::Null),
        (oid("1.3.6.1.2.1.2.7.1"), SnmpValue::Null),
    ];
    let r = df.process_var_binds(&mut h, &reqs, false, false);
    assert_eq!(r[0], (oid("1.3.6.1.2.1.1.1.0"), SnmpValue::OctetString(b"Replaced".to_vec())));
    assert_eq!(r[1], (oid("1.3.6.1.2.1.1.2.0"), SnmpValue::NoSuchInstance));
    assert_eq!(r[2], (oid("1.3.6.1.2.1.2.7.1"), SnmpValue::Null));
    let reqs = vec![
        (oid("1.3.6.1.2.1.1.1.0"), SnmpValue::Null),
        (oid("1.3"), SnmpValue::Null),
        (oid("1.3.6.1.2.1.2"), SnmpValue::Null),
        (oid("1.3.6.1.4.1.1"), SnmpValue::Null),
    ];
    let r = df.process_var_binds(&mut h, &reqs, true, false);
    assert_eq!(r[0], (oid("1.3.6.1.2.1.1.3.0"), SnmpValue::TimeTicks(100)));
    assert_eq!(r[1], (oid("1.3.6.1.2.1.1.1.0"), SnmpValue::OctetString(b"Replaced".to_vec())));
    assert_eq!(r[2], (oid("1.3.6.1.2.1.2"), SnmpValue::Null));
    assert_eq!(r[3], (oid("1.3.6.1.4.1.1"), SnmpValue::EndOfMibView));
}

#[test]
fn reading_records() {
    let data = b"# c\n\n  \nA|1|x\nB|2|y";
    let mut pos = 0usize;
    let mut off = 0u64;
    assert_eq!(read_record(data, &mut pos, &mut off), Some(b"A|1|x\n".to_vec()));
    assert_eq!(off, 14);
    assert_eq!(read_record(data, &mut pos, &mut off), Some(b"B|2|y".to_vec()));
    assert_eq!(read_record(data, &mut pos, &mut off), None);
    assert_eq!(off, data.len() as u64);
}

#[test]
fn compressed_files_are_read_from_their_text() {
    let mut packed = Vec::new();
    bzip2::read::BzEncoder::new(DATA, bzip2::Compression::best())
        .read_to_end(&mut packed)
        .unwrap();
    let df = DataFile::load_compressed("test.snmprec.bz2", &packed).unwrap();
    assert_eq!(df.len(), 4);
    let mut h = RecordHandler::new(RecordKind::CompressedSnmprec);
    let reqs = vec![(oid("1.3.6.1.2.1.1.3.0"), SnmpValue::Null)];
    let r = df.process_var_binds(&mut h, &reqs, false, false);
    assert_eq!(r[0], (oid("1.3.6.1.2.1.1.3.0"), SnmpValue::TimeTicks(100)));
    assert!(DataFile::load_compressed("x.snmprec.bz2", b"not bzip2").is_err());
}

#[test]
fn blank_lines_only_give_no_record() {
    let data = b"# c\n\n   \n#x";
    let mut pos = 0usize;
    let mut off = 5u64;
    assert_eq!(read_record(data, &mut pos, &mut off), None);
    assert_eq!(pos, data.len());
    assert_eq!(off, 5 + data.len() as u64);
}
