use ares::{lookup_label, matches_all, Expression, ExpressionOperator};

fn expr(key: &str, operator: ExpressionOperator, values: &[&str]) -> Expression {
    Expression {
        key: key.to_string(),
        operator,
        values: values.iter().map(|v| v.to_string()).collect(),
    }
}

fn labels(pairs: &[(&str, &str)]) -> Vec<(String, String)> {
    pairs.iter().map(|(k, v)| (k.to_string(), v.to_string())).collect()
}

#[test]
fn exists_needs_the_label() {
    let e = expr("app", ExpressionOperator::Exists, &[]);
    let v = "nginx".to_string();
    assert!(e.match_value(Some(&v)));
    assert!(!e.match_value(None));
}

#[test]
fn does_not_exist_needs_no_label() {
    let e = expr("app", ExpressionOperator::DoesNotExist, &[]);
    let v = "nginx".to_string();
    assert!(!e.match_value(Some(&v)));
    assert!(e.match_value(None));
}

#[test]
fn in_needs_a_listed_value() {
    let e = expr("tier", ExpressionOperator::In, &["web", "api"]);
    assert!(e.match_value(Some(&"api".to_string())));
    assert!(!e.match_value(Some(&"db".to_string())));
    assert!(!e.match_value(None));
}

#[test]
fn not_in_is_false_for_an_absent_label() {
    let e = expr("tier", ExpressionOperator::NotIn, &["web"]);
    assert!(e.match_value(Some(&"db".to_string())));
    assert!(!e.match_value(Some(&"web".to_string())));
    assert!(!e.match_value(None));
}

#[test]
fn lookup_finds_the_value_of_a_key() {
    let l = labels(&[("app", "nginx"), ("tier", "web")]);
    assert_eq!(lookup_label(&l, &"tier".to_string()), Some(&"web".to_string()));
    assert_eq!(lookup_label(&l, &"zone".to_string()), None);
}

#[test]
fn all_expressions_must_hold() {
    let l = labels(&[("app", "nginx"), ("tier", "web")]);
    let es = vec![
        expr("app", ExpressionOperator::Exists, &[]),
        expr("tier", ExpressionOperator::In, &["web"]),
    ];
    assert!(matches_all(&es, &l));
    let es2 = vec![
        expr("app", ExpressionOperator::Exists, &[]),
        expr("zone", ExpressionOperator::NotIn, &["eu"]),
    ];
    assert!(!matches_all(&es2, &l));
    assert!(matches_all(&vec![], &l));
}
