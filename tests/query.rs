use std::collections::BTreeMap;

use homefiles::query::get_args;

fn as_map(q: &str) -> BTreeMap<String, String> {
    get_args(q).into_iter().collect()
}

#[test]
fn query_pairs_and_flags() {
    let m = as_map("path=/home/alice&sort=Size&flag");
    assert_eq!(m.len(), 3);
    assert_eq!(m["path"], "/home/alice");
    assert_eq!(m["sort"], "Size");
    assert_eq!(m["flag"], "");
}

#[test]
fn query_later_key_wins() {
    let m = as_map("a=1&a=2");
    assert_eq!(m.len(), 1);
    assert_eq!(m["a"], "2");
}

#[test]
fn query_skips_empty_pieces_and_keys() {
    let m = as_map("&=x&&b=");
    assert_eq!(m.len(), 1);
    assert_eq!(m["b"], "");
    assert!(as_map("").is_empty());
}

#[test]
fn query_value_stops_at_second_equals() {
    let m = as_map("k=v=w");
    assert_eq!(m["k"], "v");
}
