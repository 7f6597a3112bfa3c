use mohe::models::ContextItem;
use mohe::score::{int_score_key, key_bits, order_key, rank_retrieved, sort_by_score, THRESHOLD_KEY};

fn key(f: f32) -> u32 {
    order_key(f.to_bits())
}

fn item(id: &str, score: f32) -> ContextItem {
    ContextItem {
        kind: "entry".to_string(),
        id: id.to_string(),
        title: format!("t{id}"),
        snippet: String::new(),
        score: key(score),
    }
}

#[test]
fn keys_order_as_floats() {
    let values = [-100.0f32, -2.5, -0.0001, 0.0, 0.35, 0.36, 1.0, 3.5, 99.0, 1.0e9];
    for w in values.windows(2) {
        assert!(key(w[0]) < key(w[1]), "{} < {}", w[0], w[1]);
    }
    for v in values {
        assert_eq!(f32::from_bits(key_bits(key(v))), v);
    }
}

#[test]
fn threshold_is_035() {
    assert_eq!(THRESHOLD_KEY, key(0.35));
}

#[test]
fn integer_keys_match_floats() {
    for n in [-16777216i64, -1000, -97, -1, 0, 1, 2, 3, 7, 80, 90, 95, 96, 97, 98, 99, 1 << 20, 16777215, 16777216] {
        assert_eq!(int_score_key(n), key(n as f32), "n = {n}");
    }
}

#[test]
fn sort_is_stable_descending() {
    let items = vec![item("a", 1.0), item("b", 3.0), item("c", 1.0), item("d", 2.0), item("e", 3.0)];
    let ids: Vec<String> = sort_by_score(&items).into_iter().map(|i| i.id).collect();
    assert_eq!(ids, vec!["b", "e", "d", "a", "c"]);
}

#[test]
fn ranking_filters_sorts_and_limits() {
    let items = vec![
        item("low", 0.35),
        item("a", 0.5),
        item("b", 4.0),
        item("c", 0.36),
        item("d", 4.0),
        item("zero", 0.0),
    ];
    let ids: Vec<String> = rank_retrieved(items.clone(), 3).into_iter().map(|i| i.id).collect();
    assert_eq!(ids, vec!["b", "d", "a"]);
    let all: Vec<String> = rank_retrieved(items, 10).into_iter().map(|i| i.id).collect();
    assert_eq!(all, vec!["b", "d", "a", "c"]);
    assert!(rank_retrieved(Vec::new(), 5).is_empty());
}
