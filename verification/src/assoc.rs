//! Association lists: a sequence of keys without repetition, beside a sequence
//! of values of the same length, read as a map.

use vstd::prelude::*;

verus! {

pub open spec fn distinct<K>(keys: Seq<K>) -> bool {
    forall|i: int, j: int|
        0 <= i < keys.len() && 0 <= j < keys.len() && #[trigger] keys[i] == #[trigger] keys[j]
            ==> i == j
}

pub open spec fn present<K>(keys: Seq<K>, k: K) -> bool {
    exists|i: int| 0 <= i < keys.len() && #[trigger] keys[i] == k
}

pub open spec fn position<K>(keys: Seq<K>, k: K) -> int {
    choose|i: int| 0 <= i < keys.len() && #[trigger] keys[i] == k
}

/// The map that sends each key to the value at the key's position.
pub open spec fn assoc<K, V>(keys: Seq<K>, vals: Seq<V>) -> Map<K, V> {
    Map::new(|k: K| present(keys, k), |k: K| vals[position(keys, k)])
}

pub proof fn lemma_at<K, V>(keys: Seq<K>, vals: Seq<V>, i: int)
    requires
        distinct(keys),
        0 <= i < keys.len(),
    ensures
        present(keys, keys[i]),
        position(keys, keys[i]) == i,
        assoc(keys, vals).contains_key(keys[i]),
        assoc(keys, vals)[keys[i]] == vals[i],
{
    let j = position(keys, keys[i]);
    assert(0 <= j < keys.len() && keys[j] == keys[i]);
}

pub proof fn lemma_absent<K, V>(keys: Seq<K>, vals: Seq<V>, k: K)
    requires
        forall|i: int| 0 <= i < keys.len() ==> #[trigger] keys[i] != k,
    ensures
        !present(keys, k),
        !assoc(keys, vals).contains_key(k),
{
}

pub proof fn lemma_empty<K, V>(keys: Seq<K>, vals: Seq<V>)
    requires
        keys.len() == 0,
    ensures
        distinct(keys),
        assoc(keys, vals) == Map::<K, V>::empty(),
{
    assert(assoc(keys, vals) =~= Map::<K, V>::empty());
}

pub proof fn lemma_remove_at<K, V>(keys: Seq<K>, vals: Seq<V>, i: int)
    requires
        distinct(keys),
        keys.len() == vals.len(),
        0 <= i < keys.len(),
    ensures
        distinct(keys.remove(i)),
        assoc(keys.remove(i), vals.remove(i)) == assoc(keys, vals).remove(keys[i]),
{
    let rest = keys.remove(i);
    let k0 = keys[i];
    assert forall|a: int, b: int|
        0 <= a < rest.len() && 0 <= b < rest.len() && #[trigger] rest[a] == #[trigger] rest[b]
        implies a == b by {
        let a2 = if a < i { a } else { a + 1 };
        let b2 = if b < i { b } else { b + 1 };
        assert(keys[a2] == keys[b2]);
    }
    assert forall|k: K| #[trigger] present(rest, k) <==> (present(keys, k) && k != k0) by {
        if present(rest, k) {
            let a = position(rest, k);
            let a2 = if a < i { a } else { a + 1 };
            assert(keys[a2] == k);
            if k == k0 {
                assert(keys[a2] == keys[i]);
            }
        }
        if present(keys, k) && k != k0 {
            let a = position(keys, k);
            let a2 = if a < i { a } else { a - 1 };
            assert(rest[a2] == k);
        }
    }
    assert forall|k: K| present(rest, k) implies assoc(rest, vals.remove(i))[k] == assoc(
        keys,
        vals,
    )[k] by {
        let a = position(rest, k);
        let a2 = if a < i { a } else { a + 1 };
        assert(keys[a2] == k);
        lemma_at(keys, vals, a2);
    }
    assert(assoc(rest, vals.remove(i)) =~= assoc(keys, vals).remove(k0));
}

pub proof fn lemma_push<K, V>(keys: Seq<K>, vals: Seq<V>, k: K, v: V)
    requires
        distinct(keys),
        keys.len() == vals.len(),
        !present(keys, k),
    ensures
        distinct(keys.push(k)),
        assoc(keys.push(k), vals.push(v)) == assoc(keys, vals).insert(k, v),
{
    let more = keys.push(k);
    assert forall|a: int, b: int|
        0 <= a < more.len() && 0 <= b < more.len() && #[trigger] more[a] == #[trigger] more[b]
        implies a == b by {
        if a < keys.len() && b < keys.len() {
            assert(keys[a] == keys[b]);
        } else if a < keys.len() {
            assert(keys[a] == k);
        } else if b < keys.len() {
            assert(keys[b] == k);
        }
    }
    assert forall|x: K| #[trigger] present(more, x) <==> (present(keys, x) || x == k) by {
        if present(more, x) {
            let a = position(more, x);
            if a < keys.len() {
                assert(keys[a] == x);
            }
        }
        if present(keys, x) {
            let a = position(keys, x);
            assert(more[a] == x);
        }
        if x == k {
            assert(more[more.len() - 1] == x);
        }
    }
    assert forall|x: K| present(more, x) implies assoc(more, vals.push(v))[x] == assoc(
        keys,
        vals,
    ).insert(k, v)[x] by {
        let a = position(more, x);
        lemma_at(more, vals.push(v), a);
        if a < keys.len() {
            assert(keys[a] == x);
            lemma_at(keys, vals, a);
        }
    }
    assert(assoc(more, vals.push(v)) =~= assoc(keys, vals).insert(k, v));
}

pub proof fn lemma_update_at<K, V>(keys: Seq<K>, vals: Seq<V>, i: int, v: V)
    requires
        distinct(keys),
        keys.len() == vals.len(),
        0 <= i < keys.len(),
    ensures
        assoc(keys, vals.update(i, v)) == assoc(keys, vals).insert(keys[i], v),
{
    lemma_at(keys, vals, i);
    assert forall|x: K| present(keys, x) implies assoc(keys, vals.update(i, v))[x] == assoc(
        keys,
        vals,
    ).insert(keys[i], v)[x] by {
        let a = position(keys, x);
        lemma_at(keys, vals, a);
    }
    assert(assoc(keys, vals.update(i, v)) =~= assoc(keys, vals).insert(keys[i], v));
}

pub proof fn lemma_dom<K, V>(keys: Seq<K>, vals: Seq<V>)
    requires
        distinct(keys),
    ensures
        assoc(keys, vals).dom().finite(),
        assoc(keys, vals).dom().len() == keys.len(),
    decreases keys.len(),
{
    if keys.len() == 0 {
        assert(assoc(keys, vals).dom() =~= Set::<K>::empty());
    } else {
        let front = keys.drop_last();
        let last = keys.last();
        assert(distinct(front)) by {
            assert forall|i: int, j: int|
                0 <= i < front.len() && 0 <= j < front.len() && #[trigger] front[i]
                    == #[trigger] front[j] implies i == j by {
                assert(keys[i] == keys[j]);
            }
        }
        lemma_dom(front, vals);
        assert(!present(front, last)) by {
            if present(front, last) {
                let i = position(front, last);
                assert(keys[i] == keys[keys.len() - 1]);
            }
        }
        assert(assoc(keys, vals).dom() =~= assoc(front, vals).dom().insert(last)) by {
            assert forall|k: K| present(keys, k) <==> (present(front, k) || k == last) by {
                if present(keys, k) {
                    let i = position(keys, k);
                    if i < front.len() {
                        assert(front[i] == k);
                    }
                }
                if present(front, k) {
                    let i = position(front, k);
                    assert(keys[i] == k);
                }
                if k == last {
                    assert(keys[keys.len() - 1] == k);
                }
            }
        }
    }
}

} // verus!
