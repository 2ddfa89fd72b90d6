use ares::text::{chars_of, str_ends_with, str_lt};

#[test]
fn order_matches_string_order() {
    let words = ["", "a", "ab", "b", "B", "é", "10.0.0.10", "10.0.0.9"];
    for a in words.iter() {
        for b in words.iter() {
            assert_eq!(str_lt(a, b), a < b, "{} < {}", a, b);
        }
    }
}

#[test]
fn ends_with_matches_std() {
    let cases = [("foo.example.com", "example.com"), ("a", "ab"), ("", ""), ("abc", ""), ("é.x", ".x"), ("x", "é")];
    for (s, t) in cases.iter() {
        assert_eq!(str_ends_with(s, t), s.ends_with(t));
    }
}

#[test]
fn chars_of_keeps_every_char() {
    assert_eq!(chars_of("aé€"), vec!['a', 'é', '€']);
}
