use ares::{
    plan_add, plan_delete, plan_sync, tracking_name, OwnedOp, OwnershipError, RawOp, Record,
    RecordType,
};

const ZONE: &str = "example.com";
const FQDN: &str = "mail.example.com";

fn rec(fqdn: &str, record_type: RecordType, ttl: u64, value: &str) -> Record {
    Record::new(ZONE.to_string(), fqdn.to_string(), ttl, record_type, value.to_string())
}

/// A zone held in memory: adds append, deletes remove every record with the
/// same name, type and value.
struct Zone {
    records: Vec<Record>,
    calls: Vec<(bool, String, String)>,
}

impl Zone {
    fn new(records: Vec<Record>) -> Zone {
        Zone { records, calls: vec![] }
    }

    fn list(&self, name: &str) -> Vec<Record> {
        self.records.iter().filter(|r| r.fqdn == name).map(|r| r.duplicate()).collect()
    }

    fn apply(&mut self, ops: Vec<RawOp>) {
        for op in ops {
            match op {
                RawOp::Add(r) => {
                    self.calls.push((true, r.fqdn.clone(), r.value.clone()));
                    self.records.push(r);
                }
                RawOp::Delete(r) => {
                    self.calls.push((false, r.fqdn.clone(), r.value.clone()));
                    self.records.retain(|s| {
                        !(s.fqdn == r.fqdn && s.record_type == r.record_type && s.value == r.value)
                    });
                }
            }
        }
    }

    fn add(&mut self, record: &Record) -> Result<(), OwnershipError> {
        let tracking = self.list(&tracking_name(&record.fqdn));
        let ops = plan_add(&ZONE.to_string(), record, &tracking)?;
        self.apply(ops);
        Ok(())
    }

    fn delete(&mut self, record: &Record) -> Result<(), OwnershipError> {
        let tracking = self.list(&tracking_name(&record.fqdn));
        let ops = plan_delete(record, &tracking)?;
        self.apply(ops);
        Ok(())
    }

    fn sync(&mut self, desired: &Vec<String>) -> Result<usize, OwnershipError> {
        let builder = Record::builder(FQDN.to_string(), ZONE.to_string(), RecordType::A);
        let remote = self.list(FQDN);
        let plan = plan_sync(&builder, &remote, desired);
        let n = plan.len();
        for op in plan {
            match op {
                OwnedOp::Add(r) => self.add(&r)?,
                OwnedOp::Delete(r) => self.delete(&r)?,
            }
        }
        Ok(n)
    }
}

fn call(add: bool, fqdn: &str, value: &str) -> (bool, String, String) {
    (add, fqdn.to_string(), value.to_string())
}

#[test]
fn tracking_name_prefixes_owner() {
    assert_eq!(tracking_name(&"a.example.com".to_string()), "_owner.a.example.com");
}

#[test]
fn add_creates_tracking_record_first() {
    let r = rec(FQDN, RecordType::A, 1, "10.0.0.1");
    let ops = plan_add(&ZONE.to_string(), &r, &vec![]).unwrap();
    assert_eq!(ops.len(), 2);
    match &ops[0] {
        RawOp::Add(t) => {
            assert_eq!(t.fqdn, "_owner.mail.example.com");
            assert_eq!(t.zone, ZONE);
            assert_eq!(t.record_type, RecordType::TXT);
            assert_eq!(t.ttl, 1);
            assert_eq!(t.value, "ares");
        }
        _ => panic!("expected an add"),
    }
    match &ops[1] {
        RawOp::Add(v) => assert_eq!(v.value, "10.0.0.1"),
        _ => panic!("expected an add"),
    }
}

#[test]
fn add_refused_when_tracking_exists() {
    let r = rec(FQDN, RecordType::A, 1, "10.0.0.1");
    let t = rec("_owner.mail.example.com", RecordType::TXT, 1, "someone-else");
    assert_eq!(plan_add(&ZONE.to_string(), &r, &vec![t]).unwrap_err(), OwnershipError::AlreadyOwned);
}

#[test]
fn add_twice_fails_without_mutation() {
    let mut zone = Zone::new(vec![]);
    let r = rec(FQDN, RecordType::A, 1, "10.0.0.1");
    zone.add(&r).unwrap();
    assert_eq!(zone.calls.len(), 2);
    let again = rec(FQDN, RecordType::A, 1, "10.0.0.7");
    assert_eq!(zone.add(&again), Err(OwnershipError::AlreadyOwned));
    assert_eq!(zone.calls.len(), 2);
    assert_eq!(zone.records.len(), 2);
}

#[test]
fn delete_removes_value_then_tracking() {
    let r = rec(FQDN, RecordType::A, 1, "10.0.0.1");
    let other = rec("_owner.mail.example.com", RecordType::TXT, 1, "other");
    let t = rec("_owner.mail.example.com", RecordType::TXT, 1, "ares");
    let ops = plan_delete(&r, &vec![other, t]).unwrap();
    assert_eq!(ops.len(), 2);
    match (&ops[0], &ops[1]) {
        (RawOp::Delete(a), RawOp::Delete(b)) => {
            assert_eq!(a.value, "10.0.0.1");
            assert_eq!(b.fqdn, "_owner.mail.example.com");
            assert_eq!(b.value, "ares");
        }
        _ => panic!("expected two deletes"),
    }
}

#[test]
fn delete_refused_without_owner_marker() {
    let r = rec(FQDN, RecordType::A, 1, "10.0.0.1");
    let other = rec("_owner.mail.example.com", RecordType::TXT, 1, "other");
    assert_eq!(plan_delete(&r, &vec![other]).unwrap_err(), OwnershipError::NotOwned);
    assert_eq!(plan_delete(&r, &vec![]).unwrap_err(), OwnershipError::NotOwned);
}

#[test]
fn sync_plan_deletes_stale_then_adds_missing() {
    let builder = Record::builder(FQDN.to_string(), ZONE.to_string(), RecordType::A);
    let remote = vec![
        rec(FQDN, RecordType::A, 300, "10.0.0.2"),
        rec(FQDN, RecordType::A, 300, "10.0.0.9"),
    ];
    let desired = vec!["10.0.0.1".to_string(), "10.0.0.2".to_string()];
    let plan = plan_sync(&builder, &remote, &desired);
    assert_eq!(plan.len(), 2);
    match &plan[0] {
        OwnedOp::Delete(r) => {
            assert_eq!(r.value, "10.0.0.9");
            assert_eq!(r.ttl, 300);
        }
        _ => panic!("expected a delete"),
    }
    match &plan[1] {
        OwnedOp::Add(r) => {
            assert_eq!(r.value, "10.0.0.1");
            assert_eq!(r.fqdn, FQDN);
            assert_eq!(r.zone, ZONE);
            assert_eq!(r.ttl, 1);
            assert_eq!(r.record_type, RecordType::A);
        }
        _ => panic!("expected an add"),
    }
}

#[test]
fn sync_scenario_deletes_stale_and_adds_missing() {
    let mut zone = Zone::new(vec![
        rec("_owner.mail.example.com", RecordType::TXT, 1, "ares"),
        rec(FQDN, RecordType::A, 1, "10.0.0.2"),
        rec(FQDN, RecordType::A, 1, "10.0.0.9"),
    ]);
    let desired = vec!["10.0.0.1".to_string(), "10.0.0.2".to_string()];
    zone.sync(&desired).unwrap();
    assert_eq!(
        zone.calls,
        vec![
            call(false, FQDN, "10.0.0.9"),
            call(false, "_owner.mail.example.com", "ares"),
            call(true, "_owner.mail.example.com", "ares"),
            call(true, FQDN, "10.0.0.1"),
        ]
    );
    let mut values: Vec<String> = zone.list(FQDN).iter().map(|r| r.value.clone()).collect();
    values.sort();
    assert_eq!(values, vec!["10.0.0.1".to_string(), "10.0.0.2".to_string()]);
}

#[test]
fn second_sync_makes_no_calls() {
    let mut zone = Zone::new(vec![]);
    let desired = vec!["10.0.0.5".to_string()];
    assert_eq!(zone.sync(&desired), Ok(1));
    let before = zone.calls.len();
    assert_eq!(zone.sync(&desired), Ok(0));
    assert_eq!(zone.calls.len(), before);
}
