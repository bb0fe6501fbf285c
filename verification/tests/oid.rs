use snmpsim::oid::Oid;

#[test]
fn test_parse() {
    let oid: Oid = "1.3.6.1.2.1.1.1.0".parse().unwrap();
    assert_eq!(oid.components(), &[1, 3, 6, 1, 2, 1, 1, 1, 0]);
}

#[test]
fn test_parse_with_leading_dot() {
    let oid: Oid = ".1.3.6.1".parse().unwrap();
    assert_eq!(oid.components(), &[1, 3, 6, 1]);
}

#[test]
fn test_display() {
    let oid = Oid::new(vec![1, 3, 6, 1, 2, 1]);
    assert_eq!(oid.to_dotted_string(), "1.3.6.1.2.1");
}

#[test]
fn test_ordering() {
    let a: Oid = "1.3.6.1.2".parse().unwrap();
    let b: Oid = "1.3.6.1.10".parse().unwrap();
    assert!(a < b);
}

#[test]
fn test_prefix() {
    let prefix: Oid = "1.3.6.1".parse().unwrap();
    let child: Oid = "1.3.6.1.2.1.1.1.0".parse().unwrap();
    assert!(prefix.is_prefix_of(&child));
    assert!(!child.is_prefix_of(&prefix));
}

#[test]
fn oid_text_roundtrip_on_values() {
    let oid = Oid::new(vec![1, 3, 6, 1, 4, 1, 4294967295, 0]);
    let text = oid.to_dotted_string();
    assert_eq!(text, "1.3.6.1.4.1.4294967295.0");
    let back: Oid = text.parse().unwrap();
    assert_eq!(back, oid);
}

#[test]
fn oid_parse_errors() {
    let e = Oid::parse_str("1.3.x").unwrap_err();
    match e {
        snmpsim::error::SnmpsimError::Parse(m) => {
            assert_eq!(m, "Invalid OID '1.3.x': invalid digit found in string")
        }
        _ => panic!("wrong error"),
    }
    let e = Oid::parse_str("1.4294967296").unwrap_err();
    match e {
        snmpsim::error::SnmpsimError::Parse(m) => {
            assert_eq!(m, "Invalid OID '1.4294967296': number too large to fit in target type")
        }
        _ => panic!("wrong error"),
    }
    let empty = Oid::parse_str("...").unwrap();
    assert_eq!(empty.len(), 0);
}

#[test]
fn oid_order_and_prefix() {
    let a = Oid::new(vec![1, 3]);
    let b = Oid::new(vec![1, 3, 0]);
    let c = Oid::new(vec![1, 4]);
    assert_eq!(a.compare(&b), snmpsim::oid::OidOrdering::Less);
    assert_eq!(c.compare(&b), snmpsim::oid::OidOrdering::Greater);
    assert_eq!(a.compare(&a.duplicate()), snmpsim::oid::OidOrdering::Equal);
    assert!(a.is_prefix_of(&b));
    assert_eq!(a.append(&c).components(), &[1, 3, 1, 4]);
}
