use ares::{external_addresses, Expression, ExpressionOperator, NodeAddress, PodInfo, PodSelector, ValueError};

fn labels(pairs: &[(&str, &str)]) -> Vec<(String, String)> {
    pairs.iter().map(|(k, v)| (k.to_string(), v.to_string())).collect()
}

fn pod(l: Option<&[(&str, &str)]>, node: Option<&str>) -> PodInfo {
    PodInfo { labels: l.map(labels), node_name: node.map(|n| n.to_string()) }
}

fn addr(kind: &str, a: &str) -> NodeAddress {
    NodeAddress { address_type: kind.to_string(), address: a.to_string() }
}

fn web_selector() -> PodSelector {
    PodSelector {
        match_labels: Some(labels(&[("app", "nginx")])),
        match_expressions: Some(vec![Expression {
            key: "tier".to_string(),
            operator: ExpressionOperator::In,
            values: vec!["web".to_string()],
        }]),
    }
}

#[test]
fn node_names_keeps_selected_pods_once() {
    let pods = vec![
        pod(Some(&[("app", "nginx"), ("tier", "web")]), Some("n1")),
        pod(Some(&[("app", "nginx"), ("tier", "db")]), Some("n2")),
        pod(Some(&[("app", "nginx"), ("tier", "web")]), Some("n3")),
        pod(Some(&[("tier", "web"), ("app", "nginx")]), Some("n1")),
    ];
    assert_eq!(web_selector().node_names(&pods).unwrap(), vec!["n1".to_string(), "n3".to_string()]);
}

#[test]
fn unlabelled_pod_has_no_labels() {
    let pods = vec![pod(Some(&[("app", "nginx"), ("tier", "web")]), Some("n1")), pod(None, Some("n2"))];
    assert_eq!(web_selector().node_names(&pods).unwrap(), vec!["n1".to_string()]);
    let absent = PodSelector {
        match_labels: None,
        match_expressions: Some(vec![Expression {
            key: "tier".to_string(),
            operator: ExpressionOperator::DoesNotExist,
            values: vec![],
        }]),
    };
    assert_eq!(absent.node_names(&pods).unwrap(), vec!["n2".to_string()]);
}

#[test]
fn label_equalities_are_checked_too() {
    let sel = PodSelector { match_labels: Some(labels(&[("app", "nginx")])), match_expressions: None };
    let pods = vec![
        pod(Some(&[("app", "nginx")]), Some("n1")),
        pod(Some(&[("app", "apache")]), Some("n2")),
        pod(None, Some("n3")),
    ];
    assert_eq!(sel.node_names(&pods).unwrap(), vec!["n1".to_string()]);
    assert!(sel.selects(&labels(&[("tier", "web"), ("app", "nginx")])));
    assert!(!sel.selects(&labels(&[])));
}

#[test]
fn node_names_needs_node_of_selected_pod() {
    let pods = vec![pod(Some(&[("tier", "db")]), None), pod(Some(&[("app", "nginx"), ("tier", "web")]), None)];
    assert_eq!(web_selector().node_names(&pods).unwrap_err(), ValueError::MissingNodeName);
    let skipped = vec![pod(Some(&[("tier", "db")]), None)];
    assert!(web_selector().node_names(&skipped).unwrap().is_empty());
}

#[test]
fn no_expressions_selects_every_pod() {
    let sel = PodSelector { match_labels: None, match_expressions: None };
    let pods = vec![pod(Some(&[]), Some("n1")), pod(Some(&[("x", "y")]), Some("n2"))];
    assert_eq!(sel.node_names(&pods).unwrap(), vec!["n1".to_string(), "n2".to_string()]);
    assert!(sel.selects(&labels(&[])));
}

#[test]
fn label_selector_joins_pairs() {
    let sel = PodSelector { match_labels: Some(labels(&[("app", "nginx"), ("tier", "web")])), match_expressions: None };
    assert_eq!(sel.label_selector(), Some("app=nginx,tier=web".to_string()));
    assert_eq!(web_selector().label_selector(), Some("app=nginx".to_string()));
    let none = PodSelector { match_labels: None, match_expressions: None };
    assert_eq!(none.label_selector(), None);
    let empty = PodSelector { match_labels: Some(vec![]), match_expressions: None };
    assert_eq!(empty.label_selector(), None);
}

#[test]
fn external_addresses_keep_external_ips_once() {
    let nodes = vec![
        Some(vec![addr("InternalIP", "192.168.0.1"), addr("ExternalIP", "10.0.0.1")]),
        Some(vec![addr("ExternalIP", "10.0.0.2"), addr("ExternalIP", "10.0.0.1"), addr("Hostname", "n2")]),
    ];
    assert_eq!(external_addresses(&nodes).unwrap(), vec!["10.0.0.1".to_string(), "10.0.0.2".to_string()]);
    assert!(external_addresses(&vec![]).unwrap().is_empty());
}

#[test]
fn external_addresses_are_sorted() {
    let nodes = vec![Some(vec![addr("ExternalIP", "b")]), Some(vec![addr("ExternalIP", "a"), addr("ExternalIP", "b")])];
    assert_eq!(external_addresses(&nodes).unwrap(), vec!["a".to_string(), "b".to_string()]);
}

#[test]
fn external_addresses_need_address_lists() {
    let nodes = vec![Some(vec![addr("ExternalIP", "10.0.0.1")]), None];
    assert_eq!(external_addresses(&nodes).unwrap_err(), ValueError::MissingAddresses);
}
