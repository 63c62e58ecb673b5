//! Property-checkable laws for any `Mapping` implementation.
//!
//! The `fn`s check a law at run time on a concrete mapping; the `proof fn`s
//! state the laws over the model that `Mapping`'s contract is written in.

use super::{
    eq_result, has_key, inserted, key_index, lemma_key_index, updates_or_appends, Mapping,
};
use vstd::prelude::*;

verus! {

/// The keys of `entries`, in order.
pub open spec fn keys_of<K, V>(entries: Seq<(K, V)>) -> Seq<K> {
    entries.map_values(|e: (K, V)| e.0)
}

/// The entries after inserting every pair of `pairs`, in order, into `entries`.
pub open spec fn insert_all<K, V>(
    entries: Seq<(K, V)>,
    pairs: Seq<(K, V)>,
    eq: spec_fn(K, K) -> bool,
) -> Seq<(K, V)>
    decreases pairs.len(),
{
    if pairs.len() == 0 {
        entries
    } else {
        inserted(insert_all(entries, pairs.drop_last(), eq), pairs.last().0, pairs.last().1, eq)
    }
}

/// The keys of `keys` that match no earlier kept key under `eq`, in order of
/// first occurrence.
pub open spec fn first_occurrences<K>(keys: Seq<K>, eq: spec_fn(K, K) -> bool) -> Seq<K>
    decreases keys.len(),
{
    if keys.len() == 0 {
        seq![]
    } else {
        let kept = first_occurrences(keys.drop_last(), eq);
        if exists|i: int| 0 <= i < kept.len() && eq(kept[i], keys.last()) {
            kept
        } else {
            kept.push(keys.last())
        }
    }
}

/// Inserting a key that is present keeps the number of entries; inserting
/// a new key adds exactly one.
pub proof fn insert_len_law<K, V>(
    entries: Seq<(K, V)>,
    key: K,
    value: V,
    eq: spec_fn(K, K) -> bool,
)
    ensures
        inserted(entries, key, value, eq).len() == if has_key(entries, key, eq) {
            entries.len()
        } else {
            entries.len() + 1
        },
{
    if has_key(entries, key, eq) {
        lemma_key_index(entries, key, eq);
    }
}

/// Insertion never moves an entry: every existing entry keeps its key and
/// position, and a present key keeps all other values unchanged.
pub proof fn insert_keeps_order_law<K, V>(
    entries: Seq<(K, V)>,
    key: K,
    value: V,
    eq: spec_fn(K, K) -> bool,
)
    ensures
        forall|i: int|
            0 <= i < entries.len() ==> #[trigger] inserted(entries, key, value, eq)[i].0
                == entries[i].0,
        has_key(entries, key, eq) ==> keys_of(inserted(entries, key, value, eq)) == keys_of(
            entries,
        ),
        !has_key(entries, key, eq) ==> keys_of(inserted(entries, key, value, eq)) == keys_of(
            entries,
        ).push(key),
{
    let after = inserted(entries, key, value, eq);
    if has_key(entries, key, eq) {
        lemma_key_index(entries, key, eq);
        assert(keys_of(after) =~= keys_of(entries));
    } else {
        assert(keys_of(after) =~= keys_of(entries).push(key));
    }
}

/// No two entries of `entries` have keys that match under `eq`.
pub open spec fn keys_distinct<K, V>(entries: Seq<(K, V)>, eq: spec_fn(K, K) -> bool) -> bool {
    forall|i: int, j: int|
        0 <= i < j < entries.len() ==> !eq(#[trigger] entries[i].0, #[trigger] entries[j].0)
}

/// Insertion keeps keys distinct: a present key is updated in place and a
/// new key matches no stored one.
pub proof fn insert_keeps_keys_distinct_law<K, V>(
    entries: Seq<(K, V)>,
    key: K,
    value: V,
    eq: spec_fn(K, K) -> bool,
)
    requires
        keys_distinct(entries, eq),
    ensures
        keys_distinct(inserted(entries, key, value, eq), eq),
{
    let after = inserted(entries, key, value, eq);
    if has_key(entries, key, eq) {
        lemma_key_index(entries, key, eq);
        assert forall|i: int, j: int| 0 <= i < j < after.len() implies !eq(
            #[trigger] after[i].0,
            #[trigger] after[j].0,
        ) by {
            assert(after[i].0 == entries[i].0);
            assert(after[j].0 == entries[j].0);
        }
    } else {
        let n = entries.len() as int;
        assert forall|i: int, j: int| 0 <= i < j < after.len() implies !eq(
            #[trigger] after[i].0,
            #[trigger] after[j].0,
        ) by {
            assert(after[i].0 == entries[i].0);
            if j < n {
                assert(after[j].0 == entries[j].0);
            }
        }
    }
}

/// After inserting `(key, value)`, a lookup for any `probe` equivalent to
/// `key` finds an entry, and that entry holds `value` (for a key comparison
/// that is symmetric and transitive).
pub proof fn insert_then_get_law<K, V>(
    entries: Seq<(K, V)>,
    key: K,
    value: V,
    probe: K,
    eq: spec_fn(K, K) -> bool,
)
    requires
        eq(key, probe),
        forall|a: K, b: K| #[trigger] eq(a, b) ==> eq(b, a),
        forall|a: K, b: K, c: K| #[trigger] eq(a, b) && #[trigger] eq(b, c) ==> eq(a, c),
    ensures
        has_key(inserted(entries, key, value, eq), probe, eq),
        inserted(entries, key, value, eq)[key_index(
            inserted(entries, key, value, eq),
            probe,
            eq,
        )].1 == value,
{
    let after = inserted(entries, key, value, eq);
    if has_key(entries, key, eq) {
        lemma_key_index(entries, key, eq);
        let i = key_index(entries, key, eq);
        assert(eq(after[i].0, key));
        assert(eq(after[i].0, probe));
        assert(has_key(after, probe, eq));
        lemma_key_index(after, probe, eq);
        let j = key_index(after, probe, eq);
        if j < i {
            assert(eq(after[j].0, probe));
            assert(eq(probe, key));
            assert(eq(entries[j].0, key));
            assert(false);
        }
        if j > i {
            assert(!eq(after[i].0, probe));
            assert(false);
        }
    } else {
        let n = entries.len() as int;
        assert(after[n].0 == key);
        assert(has_key(after, probe, eq));
        lemma_key_index(after, probe, eq);
        let j = key_index(after, probe, eq);
        if j < n {
            assert(eq(after[j].0, probe));
            assert(eq(probe, key));
            assert(eq(entries[j].0, key));
            assert(false);
        }
    }
}

/// Inserting a sequence of pairs into an empty mapping yields the keys in
/// order of first insertion, one entry per distinct key.
pub proof fn insertion_order_law<K, V>(pairs: Seq<(K, V)>, eq: spec_fn(K, K) -> bool)
    ensures
        keys_of(insert_all(seq![], pairs, eq)) == first_occurrences(keys_of(pairs), eq),
        insert_all(seq![], pairs, eq).len() == first_occurrences(keys_of(pairs), eq).len(),
    decreases pairs.len(),
{
    if pairs.len() > 0 {
        let prefix = pairs.drop_last();
        let (k, v) = pairs.last();
        insertion_order_law(prefix, eq);
        let before = insert_all(seq![], prefix, eq);
        assert(keys_of(pairs).drop_last() =~= keys_of(prefix));
        let kept = first_occurrences(keys_of(prefix), eq);
        insert_keeps_order_law(before, k, v, eq);
        if has_key(before, k, eq) {
            let i = choose|i: int| 0 <= i < before.len() && eq(before[i].0, k);
            assert(kept[i] == before[i].0);
        }
        if exists|i: int| 0 <= i < kept.len() && eq(kept[i], k) {
            let i = choose|i: int| 0 <= i < kept.len() && eq(kept[i], k);
            assert(before[i].0 == kept[i]);
        }
    }
}

/// The value of the last pair of `pairs` whose key `key` matches under
/// `eq`, as a stored `key` sees a probe (meaningful when some pair matches).
pub open spec fn last_value<K, V>(pairs: Seq<(K, V)>, key: K, eq: spec_fn(K, K) -> bool) -> V
    decreases pairs.len(),
{
    if pairs.len() == 0 {
        vstd::pervasive::arbitrary()
    } else if eq(key, pairs.last().0) {
        pairs.last().1
    } else {
        last_value(pairs.drop_last(), key, eq)
    }
}

/// Inserting a sequence of pairs into an empty mapping, with a key
/// comparison that is an equivalence, leaves no two entries with matching
/// keys, and each entry holds the value of the last pair inserted under its
/// key: the last value wins.
pub proof fn last_value_wins_law<K, V>(pairs: Seq<(K, V)>, eq: spec_fn(K, K) -> bool)
    requires
        forall|a: K| #[trigger] eq(a, a),
        forall|a: K, b: K| #[trigger] eq(a, b) ==> eq(b, a),
        forall|a: K, b: K, c: K| #[trigger] eq(a, b) && #[trigger] eq(b, c) ==> eq(a, c),
    ensures
        forall|i: int, j: int|
            0 <= i < j < insert_all(seq![], pairs, eq).len() ==> !eq(
                #[trigger] insert_all(seq![], pairs, eq)[i].0,
                #[trigger] insert_all(seq![], pairs, eq)[j].0,
            ),
        forall|i: int|
            0 <= i < insert_all(seq![], pairs, eq).len() ==> #[trigger] insert_all(
                seq![],
                pairs,
                eq,
            )[i].1 == last_value(pairs, insert_all(seq![], pairs, eq)[i].0, eq),
    decreases pairs.len(),
{
    if pairs.len() > 0 {
        let prefix = pairs.drop_last();
        let (k, v) = pairs.last();
        last_value_wins_law(prefix, eq);
        let before = insert_all(seq![], prefix, eq);
        let after = insert_all(seq![], pairs, eq);
        assert(after == inserted(before, k, v, eq));
        if has_key(before, k, eq) {
            lemma_key_index(before, k, eq);
            let m = key_index(before, k, eq);
            assert(after == before.update(m, (before[m].0, v)));
            assert forall|i: int| 0 <= i < before.len() && i != m implies !eq(
                #[trigger] before[i].0,
                k,
            ) by {
                if eq(before[i].0, k) {
                    assert(eq(k, before[m].0));
                    assert(eq(before[i].0, before[m].0));
                    if i > m {
                        assert(eq(before[m].0, before[i].0));
                    }
                }
            }
            assert forall|i: int, j: int| 0 <= i < j < after.len() implies !eq(
                #[trigger] after[i].0,
                #[trigger] after[j].0,
            ) by {
                assert(after[i].0 == before[i].0);
                assert(after[j].0 == before[j].0);
            }
            assert forall|i: int| 0 <= i < after.len() implies #[trigger] after[i].1 == last_value(
                pairs,
                after[i].0,
                eq,
            ) by {
                if i != m {
                    assert(!eq(before[i].0, k));
                    assert(after[i] == before[i]);
                }
            }
        } else {
            let n = before.len() as int;
            assert(after == before.push((k, v)));
            assert forall|i: int, j: int| 0 <= i < j < after.len() implies !eq(
                #[trigger] after[i].0,
                #[trigger] after[j].0,
            ) by {
                if j == n {
                    assert(after[i].0 == before[i].0);
                    assert(!eq(before[i].0, k));
                } else {
                    assert(after[i].0 == before[i].0);
                    assert(after[j].0 == before[j].0);
                }
            }
            assert forall|i: int| 0 <= i < after.len() implies #[trigger] after[i].1 == last_value(
                pairs,
                after[i].0,
                eq,
            ) by {
                if i < n {
                    assert(!eq(before[i].0, k));
                    assert(after[i] == before[i]);
                } else {
                    assert(eq(k, k));
                }
            }
        }
    }
}

/// After `insert(k, v)`, `get(&k)` returns `Some(&v)`. Returns whether the
/// lookup, made with a clone of `key`, found a value that compares equal to
/// a clone of `value`.
#[must_use]
pub fn insert_then_get<M>(m: &mut M, key: M::Key, value: M::Value) -> (holds: bool) where
    M: Mapping,
    M::Key: Clone,
    M::Value: PartialEq + Clone,

    ensures
        updates_or_appends(old(m).entries(), final(m).entries(), key, value),
        M::compares_faithfully() ==> final(m).entries() == inserted(
            old(m).entries(),
            key,
            value,
            M::key_match(),
        ),
        exists|key_copy: M::Key, value_copy: M::Value, found: Option<&M::Value>|
            #![trigger cloned(key, key_copy), cloned(value, value_copy), call_ensures(M::get, (&*final(m), &key_copy), found)]
            {
                &&& cloned(key, key_copy)
                &&& cloned(value, value_copy)
                &&& call_ensures(M::get, (&*final(m), &key_copy), found)
                &&& found is None ==> !holds
                &&& found matches Some(v) ==> eq_result(*v, value_copy, holds)
            },
{
    let key_copy = key.clone();
    let value_copy = value.clone();
    assert(cloned(key, key_copy));
    assert(cloned(value, value_copy));
    m.insert(key, value);
    let found = m.get(&key_copy);
    assert(call_ensures(M::get, (&*m, &key_copy), found));
    match found {
        Some(v) => {
            let same = *v == value_copy;
            assert(eq_result(*v, value_copy, same));
            same
        },
        None => false,
    }
}

/// `insert` on a new key increments `len` by exactly 1, and on a present
/// key keeps it.
#[must_use]
pub fn insert_new_key_increments_len<M>(m: &mut M, key: M::Key, value: M::Value) -> (holds:
    bool) where M: Mapping, M::Key: Clone
    requires
        old(m).entries().len() < usize::MAX,
    ensures
        updates_or_appends(old(m).entries(), final(m).entries(), key, value),
        M::compares_faithfully() ==> final(m).entries() == inserted(
            old(m).entries(),
            key,
            value,
            M::key_match(),
        ),
        exists|found: Option<&M::Value>|
            #![trigger call_ensures(M::get, (&*old(m), &key), found)]
            call_ensures(M::get, (&*old(m), &key), found) && holds == (if found is Some {
                final(m).entries().len() == old(m).entries().len()
            } else {
                final(m).entries().len() == old(m).entries().len() + 1
            }),
        M::compares_faithfully() ==> holds,
{
    let before = m.len();
    let found = m.get(&key);
    assert(call_ensures(M::get, (&*m, &key), found));
    let was_present = found.is_some();
    m.insert(key, value);
    proof {
        insert_len_law(old(m).entries(), key, value, M::key_match());
    }
    if was_present {
        m.len() == before
    } else {
        m.len() == before + 1
    }
}

/// `iter` yields exactly `len` items.
#[must_use]
pub fn iter_count_matches_len<M>(m: &M) -> (holds: bool) where M: Mapping
    ensures
        holds,
{
    m.iter().len() == m.len()
}

/// `is_empty` iff `len == 0`.
#[must_use]
pub fn is_empty_iff_len_zero<M>(m: &M) -> (holds: bool) where M: Mapping
    ensures
        holds,
{
    m.is_empty() == (m.len() == 0)
}

/// Overwriting an existing key doesn't change `len`. Returns whether the
/// key was absent before the insert, or `len` stayed the same.
#[must_use]
pub fn overwrite_preserves_len<M>(m: &mut M, key: M::Key, value: M::Value) -> (holds: bool) where
    M: Mapping,
    M::Key: Clone,

    ensures
        updates_or_appends(old(m).entries(), final(m).entries(), key, value),
        M::compares_faithfully() ==> final(m).entries() == inserted(
            old(m).entries(),
            key,
            value,
            M::key_match(),
        ),
        exists|found: Option<&M::Value>|
            #![trigger call_ensures(M::get, (&*old(m), &key), found)]
            call_ensures(M::get, (&*old(m), &key), found) && holds == (found is None
                || final(m).entries().len() == old(m).entries().len()),
        M::compares_faithfully() ==> holds,
{
    let found = m.get(&key);
    assert(call_ensures(M::get, (&*m, &key), found));
    let present = found.is_some();
    let before = m.len();
    m.insert(key, value);
    proof {
        insert_len_law(old(m).entries(), key, value, M::key_match());
    }
    !present || m.len() == before
}

} // verus!
