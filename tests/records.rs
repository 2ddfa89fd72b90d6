use ares::{BuildError, Record, RecordType};

#[test]
fn builder_needs_ttl_then_value() {
    let b = Record::builder("a.example.com".to_string(), "example.com".to_string(), RecordType::A);
    assert_eq!(b.clone().try_build().unwrap_err(), BuildError::MissingTtl);
    assert_eq!(b.clone().value("1.2.3.4".to_string()).try_build().unwrap_err(), BuildError::MissingTtl);
    assert_eq!(b.clone().ttl(5).try_build().unwrap_err(), BuildError::MissingValue);
    let r = b.value("1.2.3.4".to_string()).ttl(5).try_build().unwrap();
    assert_eq!(r.fqdn, "a.example.com");
    assert_eq!(r.zone, "example.com");
    assert_eq!(r.record_type, RecordType::A);
    assert_eq!(r.ttl, 5);
    assert_eq!(r.value, "1.2.3.4");
}

#[test]
fn new_takes_zone_before_name() {
    let r = Record::new("z.org".to_string(), "x.z.org".to_string(), 60, RecordType::CNAME, "y.org".to_string());
    assert_eq!(r.zone, "z.org");
    assert_eq!(r.fqdn, "x.z.org");
    assert_eq!(r.ttl, 60);
    assert_eq!(r.value, "y.org");
}

#[test]
fn build_with_leaves_builder_unchanged() {
    let b = Record::builder("a.example.com".to_string(), "example.com".to_string(), RecordType::AAAA);
    let r = b.build_with(&"::1".to_string(), 1);
    assert_eq!(r.value, "::1");
    assert_eq!(r.ttl, 1);
    assert!(b.value.is_none());
    assert!(b.ttl.is_none());
}

#[test]
fn duplicate_copies_every_field() {
    let r = Record::new("z".to_string(), "f".to_string(), 9, RecordType::TXT, "v".to_string());
    let d = r.duplicate();
    assert_eq!((d.zone, d.fqdn, d.ttl, d.record_type, d.value), (r.zone, r.fqdn, r.ttl, r.record_type, r.value));
}
