//! Ordered associations of text keys to values, as Godot dictionaries and
//! TOML tables hold them: setting a key that is present replaces its value
//! in place, setting a new key appends it.

use vstd::prelude::*;

verus! {

/// `i` is the first position at which `key` occurs among the keys of `entries`.
pub open spec fn is_first_key_at<V>(entries: Seq<(Seq<char>, V)>, key: Seq<char>, i: int) -> bool {
    &&& 0 <= i < entries.len()
    &&& entries[i].0 == key
    &&& forall|j: int| 0 <= j < i ==> entries[j].0 != key
}

/// `key` occurs among the keys of `entries`.
pub open spec fn has_key<V>(entries: Seq<(Seq<char>, V)>, key: Seq<char>) -> bool {
    exists|i: int| 0 <= i < entries.len() && entries[i].0 == key
}

/// The entries after setting `key` to `value`: the first entry with that key
/// gets the new value, or the pair is appended when the key is new.
pub open spec fn assoc_set<V>(entries: Seq<(Seq<char>, V)>, key: Seq<char>, value: V) -> Seq<
    (Seq<char>, V),
> {
    if exists|i: int| is_first_key_at(entries, key, i) {
        let i = choose|i: int| is_first_key_at(entries, key, i);
        entries.update(i, (key, value))
    } else {
        entries.push((key, value))
    }
}

/// No key occurs twice.
pub open spec fn keys_unique<V>(entries: Seq<(Seq<char>, V)>) -> bool {
    forall|i: int, j: int| 0 <= i < j < entries.len() ==> entries[i].0 != entries[j].0
}

/// The first position of a key is unique.
pub proof fn lemma_first_key_unique<V>(entries: Seq<(Seq<char>, V)>, key: Seq<char>, i: int, j: int)
    requires
        is_first_key_at(entries, key, i),
        is_first_key_at(entries, key, j),
    ensures
        i == j,
{
}

/// A key that occurs has a first position, and `assoc_set` replaces the value there.
pub proof fn lemma_assoc_set_present<V>(entries: Seq<(Seq<char>, V)>, key: Seq<char>, value: V, i: int)
    requires
        is_first_key_at(entries, key, i),
    ensures
        assoc_set(entries, key, value) == entries.update(i, (key, value)),
{
    let k = choose|k: int| is_first_key_at(entries, key, k);
    lemma_first_key_unique(entries, key, i, k);
}

/// With no occurrence of the key, `assoc_set` appends.
pub proof fn lemma_assoc_set_absent<V>(entries: Seq<(Seq<char>, V)>, key: Seq<char>, value: V)
    requires
        !has_key(entries, key),
    ensures
        assoc_set(entries, key, value) == entries.push((key, value)),
{
}

/// The first position exists whenever the key occurs.
pub proof fn lemma_has_key_first<V>(entries: Seq<(Seq<char>, V)>, key: Seq<char>)
    requires
        has_key(entries, key),
    ensures
        exists|i: int| is_first_key_at(entries, key, i),
    decreases entries.len(),
{
    if entries[0].0 == key {
        assert(is_first_key_at(entries, key, 0));
    } else {
        let rest = entries.drop_first();
        let w = choose|w: int| 0 <= w < entries.len() && entries[w].0 == key;
        assert(rest[w - 1].0 == key);
        lemma_has_key_first(rest, key);
        let i = choose|i: int| is_first_key_at(rest, key, i);
        assert forall|j: int| 0 <= j < i + 1 implies entries[j].0 != key by {
            if j > 0 {
                assert(entries[j] == rest[j - 1]);
            }
        }
        assert(is_first_key_at(entries, key, i + 1));
    }
}

/// Setting a key keeps the keys unique, and afterwards the key occurs.
pub proof fn lemma_assoc_set_unique<V>(entries: Seq<(Seq<char>, V)>, key: Seq<char>, value: V)
    requires
        keys_unique(entries),
    ensures
        keys_unique(assoc_set(entries, key, value)),
        has_key(assoc_set(entries, key, value), key),
{
    if has_key(entries, key) {
        lemma_has_key_first(entries, key);
        let i = choose|i: int| is_first_key_at(entries, key, i);
        lemma_assoc_set_present(entries, key, value, i);
        assert(assoc_set(entries, key, value)[i].0 == key);
    } else {
        lemma_assoc_set_absent(entries, key, value);
        assert(assoc_set(entries, key, value)[entries.len() as int].0 == key);
    }
}

/// Setting a key twice leaves only the second value: the key keeps the
/// position it got first.
pub proof fn lemma_assoc_set_twice<V>(entries: Seq<(Seq<char>, V)>, key: Seq<char>, first: V, second: V)
    ensures
        assoc_set(assoc_set(entries, key, first), key, second) == assoc_set(entries, key, second),
{
    let once = assoc_set(entries, key, first);
    if has_key(entries, key) {
        lemma_has_key_first(entries, key);
        let i = choose|i: int| is_first_key_at(entries, key, i);
        lemma_assoc_set_present(entries, key, first, i);
        assert(is_first_key_at(once, key, i));
        lemma_assoc_set_present(once, key, second, i);
        lemma_assoc_set_present(entries, key, second, i);
        assert(once.update(i, (key, second)) =~= entries.update(i, (key, second)));
    } else {
        lemma_assoc_set_absent(entries, key, first);
        let n = entries.len() as int;
        assert(is_first_key_at(once, key, n));
        lemma_assoc_set_present(once, key, second, n);
        lemma_assoc_set_absent(entries, key, second);
        assert(once.update(n, (key, second)) =~= entries.push((key, second)));
    }
}

/// The value of `key`: the one at its first position, if it occurs.
pub open spec fn lookup<V>(entries: Seq<(Seq<char>, V)>, key: Seq<char>) -> Option<V> {
    if exists|i: int| is_first_key_at(entries, key, i) {
        Some(entries[choose|i: int| is_first_key_at(entries, key, i)].1)
    } else {
        None
    }
}

/// Reading a key gives back the value last set for it, and setting a key
/// leaves the value of every other key as it was.
pub proof fn lemma_assoc_set_lookup<V>(entries: Seq<(Seq<char>, V)>, key: Seq<char>, value: V, other: Seq<char>)
    requires
        other != key,
    ensures
        lookup(assoc_set(entries, key, value), key) == Some(value),
        lookup(assoc_set(entries, key, value), other) == lookup(entries, other),
{
    let res = assoc_set(entries, key, value);
    if has_key(entries, key) {
        lemma_has_key_first(entries, key);
        let k = choose|k: int| is_first_key_at(entries, key, k);
        lemma_assoc_set_present(entries, key, value, k);
        assert(is_first_key_at(res, key, k));
        let c = choose|i: int| is_first_key_at(res, key, i);
        lemma_first_key_unique(res, key, c, k);
        assert forall|j: int| 0 <= j < res.len() implies #[trigger] res[j].0 == entries[j].0 by {
            if j == k {
                assert(entries[k].0 == key);
            }
        }
        assert forall|i: int| #[trigger] is_first_key_at(res, other, i) <==> is_first_key_at(entries, other, i) by {
            if is_first_key_at(res, other, i) {
                assert forall|j: int| 0 <= j < i implies entries[j].0 != other by {
                    assert(res[j].0 == entries[j].0);
                }
            }
            if is_first_key_at(entries, other, i) {
                assert forall|j: int| 0 <= j < i implies res[j].0 != other by {
                    assert(res[j].0 == entries[j].0);
                }
            }
        }
        if exists|i: int| is_first_key_at(entries, other, i) {
            let a = choose|i: int| is_first_key_at(entries, other, i);
            let b = choose|i: int| is_first_key_at(res, other, i);
            assert(is_first_key_at(res, other, a));
            lemma_first_key_unique(res, other, a, b);
            assert(a != k);
        }
    } else {
        lemma_assoc_set_absent(entries, key, value);
        let n = entries.len() as int;
        assert(is_first_key_at(res, key, n));
        let c = choose|i: int| is_first_key_at(res, key, i);
        lemma_first_key_unique(res, key, c, n);
        assert forall|i: int| #[trigger] is_first_key_at(res, other, i) <==> is_first_key_at(entries, other, i) by {
            if is_first_key_at(res, other, i) {
                assert(i != n);
                assert forall|j: int| 0 <= j < i implies entries[j].0 != other by {
                    assert(res[j] == entries[j]);
                }
            }
            if is_first_key_at(entries, other, i) {
                assert forall|j: int| 0 <= j < i implies res[j].0 != other by {
                    assert(res[j] == entries[j]);
                }
            }
        }
        if exists|i: int| is_first_key_at(entries, other, i) {
            let a = choose|i: int| is_first_key_at(entries, other, i);
            let b = choose|i: int| is_first_key_at(res, other, i);
            assert(is_first_key_at(res, other, a));
            lemma_first_key_unique(res, other, a, b);
        }
    }
}

/// Reading a key right after setting it gives the value set.
pub proof fn lemma_assoc_set_sets<V>(entries: Seq<(Seq<char>, V)>, key: Seq<char>, value: V)
    ensures
        lookup(assoc_set(entries, key, value), key) == Some(value),
{
    let res = assoc_set(entries, key, value);
    if has_key(entries, key) {
        lemma_has_key_first(entries, key);
        let k = choose|k: int| is_first_key_at(entries, key, k);
        lemma_assoc_set_present(entries, key, value, k);
        assert(is_first_key_at(res, key, k));
        let c = choose|i: int| is_first_key_at(res, key, i);
        lemma_first_key_unique(res, key, c, k);
    } else {
        lemma_assoc_set_absent(entries, key, value);
        let n = entries.len() as int;
        assert(is_first_key_at(res, key, n));
        let c = choose|i: int| is_first_key_at(res, key, i);
        lemma_first_key_unique(res, key, c, n);
    }
}

/// After setting a key, each entry is either the one set or the entry that
/// stood at that position before.
pub proof fn lemma_assoc_set_entries<V>(entries: Seq<(Seq<char>, V)>, key: Seq<char>, value: V)
    ensures
        forall|i: int| 0 <= i < assoc_set(entries, key, value).len() ==> {
            ||| #[trigger] assoc_set(entries, key, value)[i] == (key, value)
            ||| (i < entries.len() && assoc_set(entries, key, value)[i] == entries[i])
        },
{
    if exists|i: int| is_first_key_at(entries, key, i) {
        let k = choose|i: int| is_first_key_at(entries, key, i);
        lemma_assoc_set_present(entries, key, value, k);
    } else {
    }
}

} // verus!
