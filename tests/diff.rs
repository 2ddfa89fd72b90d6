use ares::{change_op, diff_sorted, sort_unique, OwnedOp, Record, RecordChange, RecordType, ValueTracker};

fn strings(vs: &[&str]) -> Vec<String> {
    vs.iter().map(|v| v.to_string()).collect()
}

fn show(cs: &[RecordChange]) -> Vec<String> {
    cs.iter()
        .map(|c| match c {
            RecordChange::Add(v) => format!("+{}", v),
            RecordChange::Remove(v) => format!("-{}", v),
        })
        .collect()
}

#[test]
fn merge_join_walks_both_cursors() {
    let old = strings(&["a", "c", "e"]);
    let new = strings(&["b", "c", "d"]);
    let changes = diff_sorted(&old, &new);
    // a < b: a removed; c > b: b added; c = c; e > d: d added; e left over: removed.
    assert_eq!(show(&changes), strings(&["-a", "+b", "+d", "-e"]));
}

#[test]
fn diff_of_equal_sets_is_empty() {
    let v = strings(&["10.0.0.1", "10.0.0.2"]);
    assert!(diff_sorted(&v, &v).is_empty());
}

#[test]
fn diff_with_empty_sides() {
    let v = strings(&["x", "y"]);
    assert_eq!(show(&diff_sorted(&vec![], &v)), strings(&["+x", "+y"]));
    assert_eq!(show(&diff_sorted(&v, &vec![])), strings(&["-x", "-y"]));
    assert!(diff_sorted(&vec![], &vec![]).is_empty());
}

#[test]
fn sort_unique_orders_and_drops_repeats() {
    let v = strings(&["10.0.0.9", "10.0.0.10", "10.0.0.9", "1.1.1.1"]);
    assert_eq!(sort_unique(&v), strings(&["1.1.1.1", "10.0.0.10", "10.0.0.9"]));
    assert!(sort_unique(&vec![]).is_empty());
}

#[test]
fn sort_unique_uses_code_point_order() {
    let v = strings(&["b", "B", "ab", "a", "é"]);
    let mut expected = v.clone();
    expected.sort();
    assert_eq!(sort_unique(&v), expected);
}

#[test]
fn tracker_reports_changes_and_keeps_new_set() {
    let mut t = ValueTracker::new(&strings(&["10.0.0.2", "10.0.0.1"]));
    assert_eq!(t.values(), &strings(&["10.0.0.1", "10.0.0.2"]));
    let changes = t.update(&strings(&["10.0.0.3", "10.0.0.2", "10.0.0.3"]));
    assert_eq!(show(&changes), strings(&["-10.0.0.1", "+10.0.0.3"]));
    assert_eq!(t.values(), &strings(&["10.0.0.2", "10.0.0.3"]));
    assert!(t.update(&strings(&["10.0.0.2", "10.0.0.3"])).is_empty());
}

#[test]
fn change_becomes_owned_call_with_ttl_one() {
    let b = Record::builder("w.example.com".to_string(), "example.com".to_string(), RecordType::A);
    match change_op(&b, &RecordChange::Add("1.2.3.4".to_string())) {
        OwnedOp::Add(r) => {
            assert_eq!(r.value, "1.2.3.4");
            assert_eq!(r.ttl, 1);
            assert_eq!(r.fqdn, "w.example.com");
        }
        _ => panic!("expected an add"),
    }
    match change_op(&b, &RecordChange::Remove("5.6.7.8".to_string())) {
        OwnedOp::Delete(r) => {
            assert_eq!(r.value, "5.6.7.8");
            assert_eq!(r.zone, "example.com");
        }
        _ => panic!("expected a delete"),
    }
}
