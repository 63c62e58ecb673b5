use synthesizer_core::mapping::laws;
use synthesizer_core::Mapping;

#[test]
fn vec_pairs_insert_then_get_returns_value() {
    let mut m: Vec<(String, i32)> = Vec::new();
    Mapping::insert(&mut m, "a".into(), 1);
    assert_eq!(Mapping::get(&m, &"a".to_string()), Some(&1));
}

#[test]
fn vec_pairs_get_missing_returns_none() {
    let m: Vec<(String, i32)> = Vec::new();
    assert_eq!(Mapping::get(&m, &"missing".to_string()), None);
}

#[test]
fn vec_pairs_len_reflects_insertions() {
    let mut m: Vec<(String, i32)> = Vec::new();
    assert_eq!(Mapping::len(&m), 0);
    Mapping::insert(&mut m, "a".into(), 1);
    assert_eq!(Mapping::len(&m), 1);
    Mapping::insert(&mut m, "b".into(), 2);
    assert_eq!(Mapping::len(&m), 2);
}

#[test]
fn vec_pairs_overwrite_preserves_len() {
    let mut m: Vec<(String, i32)> = Vec::new();
    Mapping::insert(&mut m, "a".into(), 1);
    Mapping::insert(&mut m, "a".into(), 99);
    assert_eq!(Mapping::len(&m), 1);
    assert_eq!(Mapping::get(&m, &"a".to_string()), Some(&99));
}

#[test]
fn vec_pairs_overwrite_preserves_order() {
    let mut m: Vec<(String, i32)> = Vec::new();
    Mapping::insert(&mut m, "a".into(), 1);
    Mapping::insert(&mut m, "b".into(), 2);
    Mapping::insert(&mut m, "c".into(), 3);
    Mapping::insert(&mut m, "a".into(), 42); // overwrite — must NOT move to end
    let keys: Vec<&String> = Mapping::iter(&m).into_iter().map(|(k, _)| k).collect();
    assert_eq!(
        keys,
        vec![&"a".to_string(), &"b".to_string(), &"c".to_string()]
    );
}

#[test]
fn vec_pairs_iter_yields_in_insertion_order() {
    let mut m: Vec<(String, i32)> = Vec::new();
    Mapping::insert(&mut m, "first".into(), 1);
    Mapping::insert(&mut m, "second".into(), 2);
    Mapping::insert(&mut m, "third".into(), 3);
    let values: Vec<i32> = Mapping::iter(&m).into_iter().map(|(_, v)| *v).collect();
    assert_eq!(values, vec![1, 2, 3]);
}

#[test]
fn vec_pairs_is_empty_on_new() {
    let m: Vec<(String, i32)> = Vec::new();
    assert!(Mapping::is_empty(&m));
}

#[test]
fn vec_pairs_not_empty_after_insert() {
    let mut m: Vec<(String, i32)> = Vec::new();
    Mapping::insert(&mut m, "a".into(), 1);
    assert!(!Mapping::is_empty(&m));
}

#[test]
fn law_insert_then_get_holds() {
    let mut m: Vec<(String, i32)> = Vec::new();
    assert!(laws::insert_then_get(&mut m, "k".into(), 7));
}

#[test]
fn law_insert_new_key_increments_len_holds() {
    let mut m: Vec<(String, i32)> = Vec::new();
    assert!(laws::insert_new_key_increments_len(&mut m, "k".into(), 7));
    assert!(laws::insert_new_key_increments_len(&mut m, "k".into(), 8)); // overwrite path
}

#[test]
fn law_iter_count_matches_len() {
    let mut m: Vec<(String, i32)> = Vec::new();
    Mapping::insert(&mut m, "a".into(), 1);
    Mapping::insert(&mut m, "b".into(), 2);
    assert!(laws::iter_count_matches_len(&m));
}

#[test]
fn law_is_empty_iff_len_zero() {
    let mut m: Vec<(String, i32)> = Vec::new();
    assert!(laws::is_empty_iff_len_zero(&m));
    Mapping::insert(&mut m, "a".into(), 1);
    assert!(laws::is_empty_iff_len_zero(&m));
}

#[test]
fn law_overwrite_preserves_len_holds_and_inserts() {
    let mut m: Vec<(u64, u64)> = vec![(1, 10)];
    assert!(laws::overwrite_preserves_len(&mut m, 1, 11));
    assert_eq!(m, vec![(1, 11)]);
    assert!(laws::overwrite_preserves_len(&mut m, 2, 20));
    assert_eq!(m, vec![(1, 11), (2, 20)]);
}

#[test]
fn insert_overwrite_keeps_stored_key_and_updates_value() {
    let mut m: Vec<(u64, &str)> = vec![(3, "x"), (5, "y")];
    Mapping::insert(&mut m, 5, "z");
    assert_eq!(m, vec![(3, "x"), (5, "z")]);
    Mapping::insert(&mut m, 4, "w");
    assert_eq!(m, vec![(3, "x"), (5, "z"), (4, "w")]);
}

#[test]
fn len_equals_number_of_distinct_keys() {
    let pairs = [("a", 1), ("b", 2), ("a", 3), ("c", 4), ("b", 5), ("a", 6)];
    let mut m: Vec<(String, i32)> = Vec::new();
    for (k, v) in pairs {
        Mapping::insert(&mut m, k.to_string(), v);
    }
    assert_eq!(Mapping::len(&m), 3);
    let keys: Vec<String> = Mapping::iter(&m).into_iter().map(|(k, _)| k.clone()).collect();
    assert_eq!(keys, vec!["a".to_string(), "b".to_string(), "c".to_string()]);
    let values: Vec<i32> = Mapping::iter(&m).into_iter().map(|(_, v)| *v).collect();
    assert_eq!(values, vec![6, 5, 4]);
}

#[test]
fn get_after_insert_returns_latest_value() {
    let mut m: Vec<(String, i32)> = Vec::new();
    Mapping::insert(&mut m, "k".into(), 1);
    Mapping::insert(&mut m, "k".into(), 2);
    assert_eq!(Mapping::get(&m, &"k".to_string()), Some(&2));
    assert_eq!(Mapping::get(&m, &"j".to_string()), None);
}
