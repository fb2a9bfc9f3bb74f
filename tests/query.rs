use http_server::{QueryString, Value};

#[test]
fn decode_two_pairs() {
    let q = QueryString::from("a=1&b=2");
    assert_eq!(q.len(), 2);
    assert_eq!(q.get("a"), Some(&Value::Single("1")));
    assert_eq!(q.get("b"), Some(&Value::Single("2")));
    assert_eq!(q.get("c"), None);
}

#[test]
fn decode_repeated_key_keeps_order() {
    let q = QueryString::from("a=1&a=2&a=3");
    assert_eq!(q.len(), 1);
    assert_eq!(q.get("a"), Some(&Value::Multiple(vec!["1", "2", "3"])));
}

#[test]
fn decode_second_occurrence_makes_multiple() {
    let q = QueryString::from("k=first&x=0&k=second");
    assert_eq!(q.get("k"), Some(&Value::Multiple(vec!["first", "second"])));
    assert_eq!(q.get("x"), Some(&Value::Single("0")));
}

#[test]
fn decode_bare_key() {
    let q = QueryString::from("flag");
    assert_eq!(q.len(), 1);
    assert_eq!(q.get("flag"), Some(&Value::Single("")));
}

#[test]
fn decode_empty_input() {
    let q = QueryString::from("");
    assert!(q.is_empty());
    assert_eq!(q.len(), 0);
    assert_eq!(q.get(""), None);
}

#[test]
fn decode_splits_each_fragment_at_its_own_equals() {
    let q = QueryString::from("a=1&b");
    assert_eq!(q.get("a"), Some(&Value::Single("1")));
    assert_eq!(q.get("b"), Some(&Value::Single("")));
}

#[test]
fn decode_value_keeps_later_equals() {
    let q = QueryString::from("expr=x=y");
    assert_eq!(q.get("expr"), Some(&Value::Single("x=y")));
}

#[test]
fn decode_repeated_empty_values_accumulate() {
    let q = QueryString::from("a&a&a=");
    assert_eq!(q.get("a"), Some(&Value::Multiple(vec!["", "", ""])));
}

#[test]
fn decode_empty_fragment_is_empty_key() {
    let q = QueryString::from("a=1&&b=2");
    assert_eq!(q.len(), 3);
    assert_eq!(q.get(""), Some(&Value::Single("")));
}
