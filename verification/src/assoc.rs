//! Maps held as two sequences that go together: keys without repetition,
//! and the value of each.

use vstd::prelude::*;

verus! {

/// No key occurs twice.
pub open spec fn no_repeats<K>(keys: Seq<K>) -> bool {
    forall|i: int, j: int| 0 <= i < j < keys.len() ==> keys[i] != keys[j]
}

/// The map that takes each key to the value at the same position.
pub open spec fn pairs_map<K, V>(keys: Seq<K>, vals: Seq<V>) -> Map<K, V>
    decreases keys.len(),
{
    if keys.len() == 0 {
        Map::empty()
    } else {
        pairs_map(keys.drop_last(), vals.drop_last()).insert(keys.last(), vals.last())
    }
}

/// The map holds exactly the keys, each with its value.
pub proof fn lemma_pairs_map<K, V>(keys: Seq<K>, vals: Seq<V>)
    requires
        no_repeats(keys),
        keys.len() == vals.len(),
    ensures
        forall|k: K| #[trigger] pairs_map(keys, vals).contains_key(k) <==> keys.contains(k),
        forall|i: int|
            0 <= i < keys.len() ==> pairs_map(keys, vals).contains_key(#[trigger] keys[i])
                && pairs_map(keys, vals)[keys[i]] == vals[i],
    decreases keys.len(),
{
    if keys.len() > 0 {
        let front = keys.drop_last();
        let front_vals = vals.drop_last();
        assert(no_repeats(front)) by {
            assert forall|i: int, j: int| 0 <= i < j < front.len() implies front[i] != front[j] by {
                assert(front[i] == keys[i] && front[j] == keys[j]);
            }
        }
        lemma_pairs_map(front, front_vals);
        let m = pairs_map(keys, vals);
        assert(m == pairs_map(front, front_vals).insert(keys.last(), vals.last()));
        assert(front_vals.len() == front.len());
        assert forall|k: K| #[trigger] m.contains_key(k) <==> keys.contains(k) by {
            if m.contains_key(k) {
                if k == keys.last() {
                    assert(keys[keys.len() - 1] == k);
                } else {
                    assert(pairs_map(front, front_vals).contains_key(k));
                    assert(front.contains(k));
                    let i = choose|i: int| 0 <= i < front.len() && front[i] == k;
                    assert(keys[i] == k);
                }
            }
            if keys.contains(k) {
                let i = choose|i: int| 0 <= i < keys.len() && keys[i] == k;
                if i < front.len() {
                    assert(front[i] == k);
                }
            }
        }
        assert forall|i: int| 0 <= i < keys.len() implies m.contains_key(#[trigger] keys[i])
            && m[keys[i]] == vals[i] by {
            if i < front.len() {
                assert(front[i] == keys[i]);
                assert(front_vals[i] == vals[i]);
                assert(keys[i] != keys.last());
            }
        }
    }
}

/// A new value at position `i` is a new value for the key at `i`.
pub proof fn lemma_pairs_update<K, V>(keys: Seq<K>, vals: Seq<V>, i: int, v: V)
    requires
        no_repeats(keys),
        keys.len() == vals.len(),
        0 <= i < keys.len(),
    ensures
        pairs_map(keys, vals.update(i, v)) == pairs_map(keys, vals).insert(keys[i], v),
{
    let after = vals.update(i, v);
    lemma_pairs_map(keys, vals);
    lemma_pairs_map(keys, after);
    let want = pairs_map(keys, vals).insert(keys[i], v);
    let got = pairs_map(keys, after);
    assert forall|k: K| got.contains_key(k) <==> want.contains_key(k) by {
        assert(keys.contains(keys[i]));
    }
    assert forall|k: K| got.contains_key(k) implies got[k] == want[k] by {
        let j = choose|j: int| 0 <= j < keys.len() && keys[j] == k;
        assert(got[keys[j]] == after[j]);
        if j != i {
            assert(pairs_map(keys, vals)[keys[j]] == vals[j]);
        }
    }
    assert(got =~= want);
}

/// A key that is new, put in at position `i` with its value, is one more
/// entry of the map.
pub proof fn lemma_pairs_insert<K, V>(keys: Seq<K>, vals: Seq<V>, i: int, k: K, v: V)
    requires
        no_repeats(keys),
        keys.len() == vals.len(),
        0 <= i <= keys.len(),
        !keys.contains(k),
    ensures
        no_repeats(keys.insert(i, k)),
        pairs_map(keys.insert(i, k), vals.insert(i, v)) == pairs_map(keys, vals).insert(k, v),
{
    let keys2 = keys.insert(i, k);
    let vals2 = vals.insert(i, v);
    assert(no_repeats(keys2)) by {
        assert forall|a: int, b: int| 0 <= a < b < keys2.len() implies keys2[a] != keys2[b] by {
            let a0 = if a < i {
                a
            } else {
                a - 1
            };
            let b0 = if b < i {
                b
            } else {
                b - 1
            };
            if a == i {
                assert(keys2[b] == keys[b0]);
                assert(keys.contains(keys[b0]));
            } else if b == i {
                assert(keys2[a] == keys[a0]);
                assert(keys.contains(keys[a0]));
            } else {
                assert(keys2[a] == keys[a0] && keys2[b] == keys[b0]);
            }
        }
    }
    lemma_pairs_map(keys, vals);
    lemma_pairs_map(keys2, vals2);
    let want = pairs_map(keys, vals).insert(k, v);
    let got = pairs_map(keys2, vals2);
    assert forall|x: K| got.contains_key(x) <==> want.contains_key(x) by {
        if got.contains_key(x) {
            let j = choose|j: int| 0 <= j < keys2.len() && keys2[j] == x;
            if j < i {
                assert(keys[j] == x);
            } else if j > i {
                assert(keys[j - 1] == x);
            }
        }
        if want.contains_key(x) {
            if x == k {
                assert(keys2[i] == x);
            } else {
                let j = choose|j: int| 0 <= j < keys.len() && keys[j] == x;
                if j < i {
                    assert(keys2[j] == x);
                } else {
                    assert(keys2[j + 1] == x);
                }
            }
        }
    }
    assert forall|x: K| got.contains_key(x) implies got[x] == want[x] by {
        let j = choose|j: int| 0 <= j < keys2.len() && keys2[j] == x;
        assert(got[keys2[j]] == vals2[j]);
        if j < i {
            assert(keys[j] == x);
            assert(pairs_map(keys, vals)[keys[j]] == vals[j]);
        } else if j > i {
            assert(keys[j - 1] == x);
            assert(pairs_map(keys, vals)[keys[j - 1]] == vals[j - 1]);
        }
    }
    assert(got =~= want);
}

} // verus!
