//! Ordered key/value container trait shared across synthesizer ASTs.
//!
//! Each synthesizer's attribute set, hash literal or YAML map is an ordered
//! mapping with the same operations (insert, lookup, iterate in insertion
//! order). [`Mapping`] unifies them so generic helpers can work across any
//! synthesizer. The trait is deliberately **ordered**: iteration order is
//! insertion order, and overwriting a key keeps its position.

use vstd::prelude::*;
use vstd::std_specs::cmp::PartialEqSpec;

pub mod laws;

verus! {

/// An ordered key/value container.
///
/// Its contents are modelled by `entries`, the entries in iteration order.
/// Keys are compared with `key_match()`; whether the
/// comparisons that the implementation runs agree with that relation is
/// `compares_faithfully()` (for `Vec<(K, V)>`, whether `K`'s `==` never can
/// return both `true` and `false` on the same pair, as holds for `String`).
///
/// ## Contract
///
/// - `insert(k, v)` on an existing key overwrites the value WITHOUT
///   reordering; on a new key it appends the entry.
/// - `get(k)` returns the value of the first entry whose key is `k`.
/// - `iter` yields the entries in insertion order.
/// - `len` counts the entries.
pub trait Mapping {
    /// Key type (typically `String`).
    type Key;

    /// Value type (typically the synthesizer's node enum).
    type Value;

    /// The entries, in iteration order.
    spec fn entries(&self) -> Seq<(Self::Key, Self::Value)>;

    /// The key comparison: `key_match()(stored, probe)` holds when a lookup
    /// for `probe` matches an entry stored under `stored`.
    spec fn key_match() -> spec_fn(Self::Key, Self::Key) -> bool;

    /// Whether the implementation's key comparisons agree with `key_match()`.
    spec fn compares_faithfully() -> bool;

    /// Insert a key/value. If the key is already present, replace the
    /// value without changing position in iteration order.
    fn insert(&mut self, key: Self::Key, value: Self::Value)
        ensures
            updates_or_appends(old(self).entries(), final(self).entries(), key, value),
            Self::compares_faithfully() ==> final(self).entries() == inserted(
                old(self).entries(),
                key,
                value,
                Self::key_match(),
            ),
    ;

    /// Look up a key. Returns `None` if absent.
    fn get(&self, key: &Self::Key) -> (found: Option<&Self::Value>)
        ensures
            self.entries().len() == 0 ==> found is None,
            found matches Some(v) ==> exists|i: int|
                0 <= i < self.entries().len() && *v == #[trigger] self.entries()[i].1,
            Self::compares_faithfully() ==> (found is Some <==> has_key(
                self.entries(),
                *key,
                Self::key_match(),
            )),
            Self::compares_faithfully() ==> (found matches Some(v) ==> *v == self.entries()[key_index(
                self.entries(),
                *key,
                Self::key_match(),
            )].1),
    ;

    /// Number of entries.
    fn len(&self) -> (n: usize)
        ensures
            n == self.entries().len(),
    ;

    /// True when `len() == 0`.
    fn is_empty(&self) -> (empty: bool)
        ensures
            empty == (self.entries().len() == 0),
    {
        self.len() == 0
    }

    /// The entries in insertion order.
    fn iter(&self) -> (items: Vec<(&Self::Key, &Self::Value)>)
        ensures
            items@.len() == self.entries().len(),
            forall|i: int|
                0 <= i < items@.len() ==> *items@[i].0 == self.entries()[i].0 && *items@[i].1
                    == self.entries()[i].1,
    ;
}

/// `after` is `before` with one stored entry's value replaced by `value`
/// (its key and position kept), or `before` with `(key, value)` appended.
/// Whatever the key comparison does, an insertion has this shape.
pub open spec fn updates_or_appends<K, V>(
    before: Seq<(K, V)>,
    after: Seq<(K, V)>,
    key: K,
    value: V,
) -> bool {
    ||| exists|i: int|
        0 <= i < before.len() && after == before.update(i, (#[trigger] before[i].0, value))
    ||| after == before.push((key, value))
}

/// Some entry of `entries` matches `key` under `eq`.
pub open spec fn has_key<K, V>(entries: Seq<(K, V)>, key: K, eq: spec_fn(K, K) -> bool) -> bool {
    exists|i: int| 0 <= i < entries.len() && eq(entries[i].0, key)
}

/// `i` is the first entry of `entries` that matches `key` under `eq`.
pub open spec fn is_first_match<K, V>(
    entries: Seq<(K, V)>,
    key: K,
    eq: spec_fn(K, K) -> bool,
    i: int,
) -> bool {
    &&& 0 <= i < entries.len()
    &&& eq(entries[i].0, key)
    &&& forall|j: int| 0 <= j < i ==> !eq(entries[j].0, key)
}

/// The position of the first entry that matches `key` (meaningful when
/// `has_key` holds).
pub open spec fn key_index<K, V>(entries: Seq<(K, V)>, key: K, eq: spec_fn(K, K) -> bool) -> int {
    choose|i: int| is_first_match(entries, key, eq, i)
}

/// The entries after inserting `(key, value)`: the first matching entry
/// keeps its key and position and takes the new value; with no match the
/// pair is appended.
pub open spec fn inserted<K, V>(
    entries: Seq<(K, V)>,
    key: K,
    value: V,
    eq: spec_fn(K, K) -> bool,
) -> Seq<(K, V)> {
    if has_key(entries, key, eq) {
        let i = key_index(entries, key, eq);
        entries.update(i, (entries[i].0, value))
    } else {
        entries.push((key, value))
    }
}

/// When some entry matches, `key_index` is the first one.
pub proof fn lemma_key_index<K, V>(entries: Seq<(K, V)>, key: K, eq: spec_fn(K, K) -> bool)
    requires
        has_key(entries, key, eq),
    ensures
        is_first_match(entries, key, eq, key_index(entries, key, eq)),
{
    let i = choose|i: int| 0 <= i < entries.len() && eq(entries[i].0, key);
    lemma_first_match_below(entries, key, eq, i);
}

proof fn lemma_first_match_below<K, V>(
    entries: Seq<(K, V)>,
    key: K,
    eq: spec_fn(K, K) -> bool,
    i: int,
)
    requires
        0 <= i < entries.len(),
        eq(entries[i].0, key),
    ensures
        exists|k: int| is_first_match(entries, key, eq, k),
    decreases i,
{
    if exists|j: int| 0 <= j < i && eq(entries[j].0, key) {
        let j = choose|j: int| 0 <= j < i && eq(entries[j].0, key);
        lemma_first_match_below(entries, key, eq, j);
    } else {
        assert(is_first_match(entries, key, eq, i));
    }
}

/// There is only one first match.
pub proof fn lemma_first_match_unique<K, V>(
    entries: Seq<(K, V)>,
    key: K,
    eq: spec_fn(K, K) -> bool,
    i: int,
    j: int,
)
    requires
        is_first_match(entries, key, eq, i),
        is_first_match(entries, key, eq, j),
    ensures
        i == j,
{
}

/// `K`'s `==`, applied to `(a, b)`, can return `r`.
pub open spec fn eq_result<K: PartialEq>(a: K, b: K, r: bool) -> bool {
    call_ensures(K::eq, (&a, &b), r)
}

/// Whatever `K`'s `==` returns on `(a, b)` is `rel(a, b)`.
pub open spec fn eq_decided_by<K: PartialEq>(rel: spec_fn(K, K) -> bool) -> bool {
    forall|a: K, b: K, r: bool| #[trigger] eq_result(a, b, r) ==> r == rel(a, b)
}

/// `i` is the first entry of `entries` on which `==` against `key` returned
/// `true`, every earlier comparison having returned `false`.
pub open spec fn first_eq_true<K: PartialEq, V>(entries: Seq<(K, V)>, key: K, i: int) -> bool {
    &&& 0 <= i < entries.len()
    &&& eq_result(entries[i].0, key, true)
    &&& forall|j: int| 0 <= j < i ==> #[trigger] eq_result(entries[j].0, key, false)
}

/// What `insert` on a `Vec<(K, V)>` does, stated over the results of `K`'s
/// `==`: it replaces the value of the first entry whose key compared equal
/// to `key`, or, when every comparison returned `false`, appends the pair.
pub open spec fn vec_insert_outcome<K: PartialEq, V>(
    before: Seq<(K, V)>,
    after: Seq<(K, V)>,
    key: K,
    value: V,
) -> bool {
    ||| exists|i: int|
        #[trigger] first_eq_true(before, key, i) && after == before.update(i, (before[i].0, value))
    ||| (forall|j: int| 0 <= j < before.len() ==> #[trigger] eq_result(before[j].0, key, false))
        && after == before.push((key, value))
}

/// What `get` on a `Vec<(K, V)>` returns, stated over the results of `K`'s
/// `==`: the value of the first entry whose key compared equal to `key`, or
/// `None` when every comparison returned `false`.
pub open spec fn vec_get_outcome<K: PartialEq, V>(
    entries: Seq<(K, V)>,
    key: K,
    found: Option<&V>,
) -> bool {
    &&& found matches Some(v) ==> exists|i: int|
        #[trigger] first_eq_true(entries, key, i) && *v == entries[i].1
    &&& found is None ==> forall|j: int|
        0 <= j < entries.len() ==> #[trigger] eq_result(entries[j].0, key, false)
}

/// When `K`'s `==` is decided by `rel`, `insert` on a `Vec<(K, V)>` is
/// exactly `inserted` under `rel`.
pub proof fn vec_insert_law<K: PartialEq, V>(
    before: Seq<(K, V)>,
    after: Seq<(K, V)>,
    key: K,
    value: V,
    rel: spec_fn(K, K) -> bool,
)
    requires
        eq_decided_by::<K>(rel),
        vec_insert_outcome(before, after, key, value),
    ensures
        after == inserted(before, key, value, rel),
{
    if exists|i: int| #[trigger] first_eq_true(before, key, i) && after == before.update(
        i,
        (before[i].0, value),
    ) {
        let i = choose|i: int| #[trigger] first_eq_true(before, key, i) && after == before.update(
            i,
            (before[i].0, value),
        );
        assert(rel(before[i].0, key));
        assert forall|j: int| 0 <= j < i implies !rel(before[j].0, key) by {
            assert(eq_result(before[j].0, key, false));
        }
        assert(is_first_match(before, key, rel, i));
        lemma_key_index(before, key, rel);
        lemma_first_match_unique(before, key, rel, i, key_index(before, key, rel));
    } else {
        assert forall|j: int| 0 <= j < before.len() implies !rel(before[j].0, key) by {
            assert(eq_result(before[j].0, key, false));
        }
    }
}

/// When `K`'s `==` is decided by `rel`, `get` on a `Vec<(K, V)>` finds an
/// entry exactly when one matches under `rel`, and returns the first
/// match's value.
pub proof fn vec_get_law<K: PartialEq, V>(
    entries: Seq<(K, V)>,
    key: K,
    found: Option<&V>,
    rel: spec_fn(K, K) -> bool,
)
    requires
        eq_decided_by::<K>(rel),
        vec_get_outcome(entries, key, found),
    ensures
        found is Some <==> has_key(entries, key, rel),
        found matches Some(v) ==> *v == entries[key_index(entries, key, rel)].1,
{
    if found is Some {
        let i = choose|i: int| #[trigger] first_eq_true(entries, key, i) && *found.unwrap()
            == entries[i].1;
        assert(rel(entries[i].0, key));
        assert forall|j: int| 0 <= j < i implies !rel(entries[j].0, key) by {
            assert(eq_result(entries[j].0, key, false));
        }
        assert(is_first_match(entries, key, rel, i));
        lemma_key_index(entries, key, rel);
        lemma_first_match_unique(entries, key, rel, i, key_index(entries, key, rel));
    } else {
        assert forall|j: int| 0 <= j < entries.len() implies !rel(entries[j].0, key) by {
            assert(eq_result(entries[j].0, key, false));
        }
    }
}

/// `String`'s `==` compares the characters: it is decided by equality of
/// the views.
pub proof fn string_eq_law()
    ensures
        eq_decided_by::<String>(|a: String, b: String| a@ == b@),
{
}

/// When `K`'s `==` obeys its vstd specification, it is decided by `eq_spec`.
pub proof fn eq_spec_law<K: PartialEq>()
    requires
        K::obeys_eq_spec(),
    ensures
        eq_decided_by::<K>(|a: K, b: K| a.eq_spec(&b)),
{
}

/// When some relation decides `K`'s `==`, the key comparisons of a
/// `Vec<(K, V)>` agree with its `key_match`.
pub proof fn decided_compares_faithfully<K: PartialEq, V>(rel: spec_fn(K, K) -> bool)
    requires
        eq_decided_by::<K>(rel),
    ensures
        <Vec<(K, V)> as Mapping>::compares_faithfully(),
{
    assert forall|a: K, b: K| !(eq_result(a, b, true) && eq_result(a, b, false)) by {
        if eq_result(a, b, true) {
            assert(rel(a, b));
        }
    }
}

/// `Vec<(K, V)>` is an ordered mapping by the usual "look up by linear scan,
/// insert appends, replace in place" convention. Keys are compared with
/// `K`'s `==`: an entry matches when `==` can return `true` on it, and the
/// comparisons are faithful when `==` never can return both `true` and
/// `false` on the same pair (as for `String`, or any type whose `==` obeys
/// its vstd specification).
impl<K: PartialEq, V> Mapping for Vec<(K, V)> {
    type Key = K;

    type Value = V;

    open spec fn entries(&self) -> Seq<(K, V)> {
        self@
    }

    open spec fn key_match() -> spec_fn(K, K) -> bool {
        |stored: K, probe: K| eq_result(stored, probe, true)
    }

    open spec fn compares_faithfully() -> bool {
        forall|a: K, b: K| !(#[trigger] eq_result(a, b, true) && eq_result(a, b, false))
    }

    fn insert(&mut self, key: K, value: V)
        ensures
            vec_insert_outcome(old(self)@, final(self)@, key, value),
    {
        let n = Vec::len(self);
        let mut i: usize = 0;
        while i < n
            invariant
                n == self@.len(),
                self@ == old(self)@,
                i <= n,
                forall|j: int| 0 <= j < i ==> #[trigger] eq_result(self@[j].0, key, false),
            decreases n - i,
        {
            let same = self[i].0 == key;
            assert(eq_result(self@[i as int].0, key, same));
            if same {
                proof {
                    assert(first_eq_true(self@, key, i as int));
                    if Self::compares_faithfully() {
                        let eq = Self::key_match();
                        assert forall|j: int| 0 <= j < i implies !eq(self@[j].0, key) by {
                            assert(eq_result(self@[j].0, key, false));
                        }
                        assert(is_first_match(self@, key, eq, i as int));
                        lemma_key_index(self@, key, eq);
                        lemma_first_match_unique(self@, key, eq, i as int, key_index(self@, key, eq));
                    }
                }
                self[i].1 = value;
                return;
            }
            i = i + 1;
        }
        proof {
            if Self::compares_faithfully() {
                let eq = Self::key_match();
                assert forall|j: int| 0 <= j < n implies !eq(self@[j].0, key) by {
                    assert(eq_result(self@[j].0, key, false));
                }
            }
        }
        self.push((key, value));
    }

    fn get(&self, key: &K) -> (found: Option<&V>)
        ensures
            vec_get_outcome(self@, *key, found),
    {
        let n = Vec::len(self);
        let mut i: usize = 0;
        while i < n
            invariant
                n == self@.len(),
                i <= n,
                forall|j: int| 0 <= j < i ==> #[trigger] eq_result(self@[j].0, *key, false),
            decreases n - i,
        {
            let same = self[i].0 == *key;
            assert(eq_result(self@[i as int].0, *key, same));
            if same {
                proof {
                    assert(first_eq_true(self@, *key, i as int));
                    if Self::compares_faithfully() {
                        let eq = Self::key_match();
                        assert forall|j: int| 0 <= j < i implies !eq(self@[j].0, *key) by {
                            assert(eq_result(self@[j].0, *key, false));
                        }
                        assert(is_first_match(self@, *key, eq, i as int));
                        lemma_key_index(self@, *key, eq);
                        lemma_first_match_unique(self@, *key, eq, i as int, key_index(self@, *key, eq));
                    }
                }
                assert(self.entries()[i as int].1 == self@[i as int].1);
                return Some(&self[i].1);
            }
            i = i + 1;
        }
        proof {
            if Self::compares_faithfully() {
                let eq = Self::key_match();
                assert forall|j: int| 0 <= j < n implies !eq(self@[j].0, *key) by {
                    assert(eq_result(self@[j].0, *key, false));
                }
            }
        }
        None
    }

    fn len(&self) -> (n: usize) {
        Vec::len(self)
    }

    fn iter(&self) -> (items: Vec<(&K, &V)>) {
        let n = Vec::len(self);
        let mut items: Vec<(&K, &V)> = Vec::new();
        let mut i: usize = 0;
        while i < n
            invariant
                n == self@.len(),
                i <= n,
                items@.len() == i,
                forall|j: int|
                    0 <= j < i ==> *items@[j].0 == self@[j].0 && *items@[j].1 == self@[j].1,
            decreases n - i,
        {
            let entry = &self[i];
            items.push((&entry.0, &entry.1));
            i = i + 1;
        }
        items
    }
}

} // verus!
