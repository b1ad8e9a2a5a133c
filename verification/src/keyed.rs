//! Association lists: a vector of key/value entries read as a map in which a
//! later entry overrides an earlier one with the same key.

use vstd::prelude::*;

use crate::ids::ids_equal;

verus! {

/// The map that `entries` denotes: each entry inserts its key and value, in
/// order, so the last entry with a given key decides its value.
pub open spec fn last_wins<K, V>(entries: Seq<(K, V)>) -> Map<K, V>
    decreases entries.len(),
{
    if entries.len() == 0 {
        Map::empty()
    } else {
        last_wins(entries.drop_last()).insert(entries.last().0, entries.last().1)
    }
}

/// `i` is the position of the last entry of `entries` whose key is `k`.
pub open spec fn is_last_entry<K, V>(entries: Seq<(K, V)>, k: K, i: int) -> bool {
    &&& 0 <= i < entries.len()
    &&& entries[i].0 == k
    &&& forall|t: int| i < t < entries.len() ==> #[trigger] entries[t].0 != k
}

/// The entries of an account table, each key taken by its characters.
pub open spec fn account_entries<V>(entries: Seq<(String, V)>) -> Seq<(Seq<char>, V)> {
    Seq::new(entries.len(), |i: int| (entries[i].0@, entries[i].1))
}

/// Appending an entry inserts it into the denoted map.
pub proof fn lemma_last_wins_push<K, V>(entries: Seq<(K, V)>, e: (K, V))
    ensures
        last_wins(entries.push(e)) == last_wins(entries).insert(e.0, e.1),
{
    assert(entries.push(e).drop_last() =~= entries);
}

/// The last entry with a key gives the key's value.
pub proof fn lemma_last_wins_lookup<K, V>(entries: Seq<(K, V)>, k: K, i: int)
    requires
        is_last_entry(entries, k, i),
    ensures
        last_wins(entries).contains_key(k),
        last_wins(entries)[k] == entries[i].1,
    decreases entries.len(),
{
    if i < entries.len() - 1 {
        let shorter = entries.drop_last();
        assert forall|t: int| i < t < shorter.len() implies #[trigger] shorter[t].0 != k by {
            assert(shorter[t] == entries[t]);
        }
        lemma_last_wins_lookup(shorter, k, i);
        assert(entries[entries.len() - 1].0 != k);
    }
}

/// A key that no entry carries is absent from the denoted map.
pub proof fn lemma_last_wins_absent<K, V>(entries: Seq<(K, V)>, k: K)
    requires
        forall|t: int| 0 <= t < entries.len() ==> #[trigger] entries[t].0 != k,
    ensures
        !last_wins(entries).contains_key(k),
    decreases entries.len(),
{
    if entries.len() > 0 {
        let shorter = entries.drop_last();
        assert forall|t: int| 0 <= t < shorter.len() implies #[trigger] shorter[t].0 != k by {
            assert(shorter[t] == entries[t]);
        }
        lemma_last_wins_absent(shorter, k);
        assert(entries[entries.len() - 1].0 != k);
    }
}

/// Overwriting the value of the last entry with a key updates that key.
pub proof fn lemma_last_wins_update<K, V>(entries: Seq<(K, V)>, k: K, i: int, v: V)
    requires
        is_last_entry(entries, k, i),
    ensures
        last_wins(entries.update(i, (k, v))) == last_wins(entries).insert(k, v),
    decreases entries.len(),
{
    let updated = entries.update(i, (k, v));
    let n = entries.len();
    if i == n - 1 {
        assert(updated.drop_last() =~= entries.drop_last());
        assert(last_wins(updated) =~= last_wins(entries).insert(k, v));
    } else {
        let shorter = entries.drop_last();
        assert forall|t: int| i < t < shorter.len() implies #[trigger] shorter[t].0 != k by {
            assert(shorter[t] == entries[t]);
        }
        lemma_last_wins_update(shorter, k, i, v);
        assert(updated.drop_last() =~= shorter.update(i, (k, v)));
        assert(updated.last() == entries.last());
        assert(entries[n - 1].0 != k);
        assert(last_wins(updated) =~= last_wins(entries).insert(k, v));
    }
}

/// Finds the last entry whose key has the characters of `key`.
pub fn find_account<V>(entries: &Vec<(String, V)>, key: &String) -> (found: Option<usize>)
    ensures
        match found {
            Some(i) => is_last_entry(account_entries(entries@), key@, i as int),
            None => forall|t: int|
                0 <= t < entries@.len() ==> #[trigger] account_entries(entries@)[t].0 != key@,
        },
{
    let ghost keyed = account_entries(entries@);
    let mut i = entries.len();
    while i > 0
        invariant
            i <= entries@.len(),
            keyed == account_entries(entries@),
            forall|t: int| i <= t < entries@.len() ==> #[trigger] keyed[t].0 != key@,
        decreases i,
    {
        i = i - 1;
        if entries[i].0 == *key {
            return Some(i);
        }
    }
    None
}

/// Finds the last entry whose key is `key`.
pub fn find_signer<V>(entries: &Vec<([u8; 32], V)>, key: &[u8; 32]) -> (found: Option<usize>)
    ensures
        match found {
            Some(i) => is_last_entry(entries@, *key, i as int),
            None => forall|t: int| 0 <= t < entries@.len() ==> #[trigger] entries@[t].0 != *key,
        },
{
    let mut i = entries.len();
    while i > 0
        invariant
            i <= entries@.len(),
            forall|t: int| i <= t < entries@.len() ==> #[trigger] entries@[t].0 != *key,
        decreases i,
    {
        i = i - 1;
        if ids_equal(&entries[i].0, key) {
            return Some(i);
        }
    }
    None
}

} // verus!
