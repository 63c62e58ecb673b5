use synthesizer_core::sequence::laws;
use synthesizer_core::Sequence;

#[test]
fn vec_push_appends() {
    let mut s: Vec<i32> = Vec::new();
    Sequence::push(&mut s, 1);
    Sequence::push(&mut s, 2);
    Sequence::push(&mut s, 3);
    assert_eq!(s, vec![1, 2, 3]);
}

#[test]
fn vec_get_in_bounds() {
    let s: Vec<&str> = vec!["a", "b", "c"];
    assert_eq!(<Vec<&str> as Sequence>::get(&s, 0), Some(&"a"));
    assert_eq!(<Vec<&str> as Sequence>::get(&s, 2), Some(&"c"));
}

#[test]
fn vec_get_out_of_bounds() {
    let s: Vec<&str> = vec!["a"];
    assert_eq!(<Vec<&str> as Sequence>::get(&s, 1), None);
    assert_eq!(<Vec<&str> as Sequence>::get(&s, 99), None);
}

#[test]
fn vec_is_empty_reflects_len() {
    let mut s: Vec<i32> = Vec::new();
    assert!(Sequence::is_empty(&s));
    Sequence::push(&mut s, 7);
    assert!(!Sequence::is_empty(&s));
}

#[test]
fn vec_iter_in_push_order() {
    let mut s: Vec<i32> = Vec::new();
    for n in [10, 20, 30] {
        Sequence::push(&mut s, n);
    }
    let observed: Vec<i32> = Sequence::iter(&s).into_iter().copied().collect();
    assert_eq!(observed, vec![10, 20, 30]);
}

#[test]
fn law_push_then_get_last_holds() {
    let mut s: Vec<i32> = Vec::new();
    assert!(laws::push_then_get_last(&mut s, 42));
}

#[test]
fn law_push_increments_len_holds() {
    let mut s: Vec<i32> = Vec::new();
    assert!(laws::push_increments_len(&mut s, 1));
    assert!(laws::push_increments_len(&mut s, 2));
    assert!(laws::push_increments_len(&mut s, 3));
}

#[test]
fn law_iter_count_matches_len_holds() {
    let s: Vec<i32> = vec![1, 2, 3, 4, 5];
    assert!(laws::iter_count_matches_len(&s));
}

#[test]
fn law_get_out_of_bounds_is_none_holds() {
    let s: Vec<i32> = vec![1, 2];
    assert!(laws::get_out_of_bounds_is_none(&s));
}

#[test]
fn empty_sequence_passes_all_laws() {
    let s: Vec<i32> = Vec::new();
    assert!(laws::iter_count_matches_len(&s));
    assert!(laws::get_out_of_bounds_is_none(&s));
}

#[test]
fn push_n_times_yields_len_n_in_order() {
    let elements = [5, -3, 0, 12, 5, 99];
    let mut s: Vec<i32> = Vec::new();
    for e in elements {
        Sequence::push(&mut s, e);
    }
    assert_eq!(Sequence::len(&s), elements.len());
    let observed: Vec<i32> = Sequence::iter(&s).into_iter().copied().collect();
    assert_eq!(observed, elements.to_vec());
}

#[test]
fn push_then_get_last_on_nonempty_sequence() {
    let mut s: Vec<String> = vec!["x".to_string()];
    assert!(laws::push_then_get_last(&mut s, "y".to_string()));
    assert_eq!(s, vec!["x".to_string(), "y".to_string()]);
    assert_eq!(Sequence::get(&s, 1), Some(&"y".to_string()));
}
