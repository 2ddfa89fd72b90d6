use ares::{xpath_steps, PathStep};

fn show(steps: &[PathStep]) -> Vec<String> {
    steps
        .iter()
        .map(|s| match s {
            PathStep::Index(i) => format!("#{}", i),
            PathStep::Key(k) => format!("k:{}", k),
        })
        .collect()
}

#[test]
fn path_steps_parse_indices_and_keys() {
    assert_eq!(show(&xpath_steps("/result/0/id")), vec!["k:result", "#0", "k:id"]);
    assert_eq!(show(&xpath_steps("/success")), vec!["k:success"]);
}

#[test]
fn path_first_piece_is_skipped() {
    assert_eq!(show(&xpath_steps("result/0")), vec!["#0"]);
    assert!(xpath_steps("").is_empty());
    assert!(xpath_steps("/").is_empty());
}

#[test]
fn path_trailing_slash_and_empty_pieces() {
    assert_eq!(show(&xpath_steps("/a/")), vec!["k:a"]);
    assert_eq!(show(&xpath_steps("/a//b")), vec!["k:a", "k:", "k:b"]);
}

#[test]
fn path_numbers_follow_unsigned_parsing() {
    assert_eq!(show(&xpath_steps("/+7/007/-1/1a/+")), vec!["#7", "#7", "k:-1", "k:1a", "k:+"]);
    let big = format!("/{}", u128::from(u64::MAX) * 10);
    assert_eq!(show(&xpath_steps(&big)), vec![format!("k:{}", u128::from(u64::MAX) * 10)]);
    let max = format!("/{}", usize::MAX);
    assert_eq!(show(&xpath_steps(&max)), vec![format!("#{}", usize::MAX)]);
}
