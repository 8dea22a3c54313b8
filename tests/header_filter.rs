use linkerd_policy_core::header::{ValidHeaderName, ValidHeaderValue};
use linkerd_policy_core::modify_header::{
    InvalidModifyHeader, ModifyHeader, RequestHeaderModifier, WireHeader,
};

fn name(s: &str) -> ValidHeaderName {
    ValidHeaderName::from_bytes(s.as_bytes()).unwrap()
}

fn value(s: &str) -> ValidHeaderValue {
    ValidHeaderValue::from_bytes(s.as_bytes()).unwrap()
}

fn wire(n: &[u8], v: &[u8]) -> WireHeader {
    WireHeader {
        name: n.to_vec(),
        value: v.to_vec(),
    }
}

fn values(headers: &http::HeaderMap, n: &str) -> Vec<Vec<u8>> {
    headers
        .get_all(n)
        .iter()
        .map(|v| v.as_bytes().to_vec())
        .collect()
}

#[test]
fn add_set_remove_round_trip() {
    let mut headers = http::HeaderMap::new();
    headers.append("x-a", http::HeaderValue::from_static("0"));
    headers.append("x-c", http::HeaderValue::from_static("z"));
    let filter = ModifyHeader {
        add: vec![(name("x-a"), value("1"))],
        set: vec![(name("x-b"), value("2"))],
        remove: vec![name("x-c")],
    };
    assert!(filter.apply(&mut headers).is_ok());
    assert_eq!(values(&headers, "x-a"), vec![b"0".to_vec(), b"1".to_vec()]);
    assert_eq!(values(&headers, "x-b"), vec![b"2".to_vec()]);
    assert!(values(&headers, "x-c").is_empty());
    assert_eq!(headers.len(), 3);
}

#[test]
fn set_replaces_and_last_set_wins() {
    let mut headers = http::HeaderMap::new();
    headers.append("x-s", http::HeaderValue::from_static("old1"));
    headers.append("x-s", http::HeaderValue::from_static("old2"));
    let filter = ModifyHeader {
        add: vec![],
        set: vec![(name("x-s"), value("first")), (name("x-s"), value("second"))],
        remove: vec![],
    };
    assert!(filter.apply(&mut headers).is_ok());
    assert_eq!(values(&headers, "x-s"), vec![b"second".to_vec()]);
}

#[test]
fn remove_runs_after_set() {
    let mut headers = http::HeaderMap::new();
    let filter = ModifyHeader {
        add: vec![(name("x-r"), value("a"))],
        set: vec![(name("x-r"), value("b"))],
        remove: vec![name("x-r")],
    };
    assert!(filter.apply(&mut headers).is_ok());
    assert!(headers.is_empty());
}

#[test]
fn empty_filter_changes_nothing() {
    let mut headers = http::HeaderMap::new();
    headers.append("x-a", http::HeaderValue::from_static("0"));
    assert!(ModifyHeader::default().apply(&mut headers).is_ok());
    assert_eq!(values(&headers, "x-a"), vec![b"0".to_vec()]);
    assert_eq!(headers.len(), 1);
}

#[test]
fn names_are_normalized() {
    assert_eq!(name("X-Foo").as_bytes(), b"x-foo");
    assert!(ValidHeaderName::from_bytes(b"").is_none());
    assert!(ValidHeaderName::from_bytes(b"bad name").is_none());
    assert!(ValidHeaderName::from_bytes(b"x:y").is_none());
}

#[test]
fn value_bytes_are_checked() {
    assert_eq!(value("a b\tc").as_bytes(), b"a b\tc");
    assert!(ValidHeaderValue::from_bytes(b"\xfa").is_some());
    assert!(ValidHeaderValue::from_bytes(b"a\nb").is_none());
    assert!(ValidHeaderValue::from_bytes(b"\x7f").is_none());
}

#[test]
fn valid_wire_modifier_converts() {
    let w = RequestHeaderModifier {
        add: vec![wire(b"X-A", b"1")],
        set: vec![wire(b"x-b", b"2")],
        remove: vec![b"X-C".to_vec()],
    };
    let mh = ModifyHeader::try_from(w).expect("valid");
    assert_eq!(mh.add, vec![(name("x-a"), value("1"))]);
    assert_eq!(mh.set, vec![(name("x-b"), value("2"))]);
    assert_eq!(mh.remove, vec![name("x-c")]);
}

#[test]
fn invalid_name_is_a_name_error() {
    let w = RequestHeaderModifier {
        add: vec![wire(b"bad name", b"ok")],
        set: vec![],
        remove: vec![],
    };
    assert_eq!(ModifyHeader::try_from(w), Err(InvalidModifyHeader::Name));
    let w = RequestHeaderModifier {
        add: vec![],
        set: vec![],
        remove: vec![b"".to_vec()],
    };
    assert_eq!(ModifyHeader::try_from(w), Err(InvalidModifyHeader::Name));
}

#[test]
fn invalid_value_is_a_value_error() {
    let w = RequestHeaderModifier {
        add: vec![],
        set: vec![wire(b"x-ok", b"bad\r\nvalue")],
        remove: vec![],
    };
    assert_eq!(ModifyHeader::try_from(w), Err(InvalidModifyHeader::Value));
}

#[test]
fn first_invalid_entry_decides() {
    let w = RequestHeaderModifier {
        add: vec![wire(b"x-a", b"\x00")],
        set: vec![wire(b"bad name", b"1")],
        remove: vec![],
    };
    assert_eq!(ModifyHeader::try_from(w), Err(InvalidModifyHeader::Value));
    let w = RequestHeaderModifier {
        add: vec![wire(b"bad name", b"\x00")],
        set: vec![],
        remove: vec![],
    };
    assert_eq!(ModifyHeader::try_from(w), Err(InvalidModifyHeader::Name));
}

#[test]
fn full_map_reports_an_error_and_keeps_earlier_operations() {
    let names: Vec<String> = (0..40000).map(|i| format!("x-{}", i)).collect();
    let filter = ModifyHeader {
        add: names.iter().map(|n| (name(n), value("v"))).collect(),
        set: vec![],
        remove: vec![],
    };
    let mut headers = http::HeaderMap::new();
    assert!(filter.apply(&mut headers).is_err());
    assert!(headers.len() > 0 && headers.len() < names.len());
    assert_eq!(values(&headers, "x-0"), vec![b"v".to_vec()]);
}
