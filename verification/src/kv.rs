//! Spec-level helpers for insertion-ordered association lists keyed by
//! strings.  The crate models every "ordered map" (plugin tables, alias
//! tables, config-file maps) as a sequence of key/value pairs whose keys are
//! unique; these functions give the shared vocabulary for such models.

use vstd::prelude::*;

verus! {

/// The keys of an association list, in order.
pub open spec fn keys_of<V>(m: Seq<(Seq<char>, V)>) -> Seq<Seq<char>> {
    m.map_values(|p: (Seq<char>, V)| p.0)
}

/// Does the list hold an entry for `k`?
pub open spec fn has_key<V>(m: Seq<(Seq<char>, V)>, k: Seq<char>) -> bool {
    exists|i: int| 0 <= i < m.len() && m[i].0 == k
}

/// Index of the first entry for `k` (meaningful only when `has_key`).
pub open spec fn key_index<V>(m: Seq<(Seq<char>, V)>, k: Seq<char>) -> int
    decreases m.len(),
{
    if m.len() == 0 {
        0
    } else if m[0].0 == k {
        0
    } else {
        1 + key_index(m.drop_first(), k)
    }
}

/// The value stored under `k` at its first entry.
pub open spec fn value_of<V>(m: Seq<(Seq<char>, V)>, k: Seq<char>) -> V {
    m[key_index(m, k)].1
}

/// All keys are distinct.
pub open spec fn uniq_keys<V>(m: Seq<(Seq<char>, V)>) -> bool {
    forall|i: int, j: int| 0 <= i < j < m.len() ==> m[i].0 != m[j].0
}

/// The list without the first entry for `k` (unchanged when absent).
pub open spec fn remove_key<V>(m: Seq<(Seq<char>, V)>, k: Seq<char>) -> Seq<(Seq<char>, V)> {
    if has_key(m, k) {
        m.remove(key_index(m, k))
    } else {
        m
    }
}

/// Insertion-ordered update: if `k` is present its value is replaced in
/// place, otherwise the pair is appended.
pub open spec fn upsert<V>(m: Seq<(Seq<char>, V)>, k: Seq<char>, v: V) -> Seq<(Seq<char>, V)> {
    if has_key(m, k) {
        m.update(key_index(m, k), (k, v))
    } else {
        m.push((k, v))
    }
}

/// When `k` is present, `key_index` points at it.
pub proof fn lemma_key_index<V>(m: Seq<(Seq<char>, V)>, k: Seq<char>)
    requires
        has_key(m, k),
    ensures
        0 <= key_index(m, k) < m.len(),
        m[key_index(m, k)].0 == k,
        forall|j: int| 0 <= j < key_index(m, k) ==> m[j].0 != k,
    decreases m.len(),
{
    if m.len() > 0 && m[0].0 != k {
        assert(has_key(m.drop_first(), k)) by {
            let i = choose|i: int| 0 <= i < m.len() && m[i].0 == k;
            assert(m.drop_first()[i - 1].0 == k);
        }
        lemma_key_index(m.drop_first(), k);
        assert forall|j: int| 0 <= j < key_index(m, k) implies m[j].0 != k by {
            if j >= 1 {
                assert(m.drop_first()[j - 1].0 != k);
            }
        }
    }
}

} // verus!
