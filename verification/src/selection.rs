//! Facts about picking the members of a sequence that satisfy a predicate.

use vstd::prelude::*;

verus! {

/// The picked members are those members of the sequence that satisfy the
/// predicate.
pub proof fn picked_members<A>(s: Seq<A>, pred: spec_fn(A) -> bool)
    ensures
        forall|x: A| #[trigger] s.filter(pred).contains(x) <==> (s.contains(x) && pred(x)),
    decreases s.len(),
{
    reveal(Seq::filter);
    if s.len() > 0 {
        let front = s.drop_last();
        picked_members(front, pred);
        let kept = front.filter(pred);
        assert(s.filter(pred) == if pred(s.last()) {
            kept.push(s.last())
        } else {
            kept
        });
        assert forall|x: A| #[trigger] s.filter(pred).contains(x) <==> (s.contains(x) && pred(x)) by {
            if s.filter(pred).contains(x) {
                let k = choose|k: int| 0 <= k < s.filter(pred).len() && s.filter(pred)[k] == x;
                if k < kept.len() {
                    assert(kept[k] == x);
                    assert(kept.contains(x));
                    assert(front.contains(x));
                    let l = choose|l: int| 0 <= l < front.len() && front[l] == x;
                    assert(s[l] == x);
                    assert(s.contains(x));
                } else {
                    assert(x == s.last());
                    assert(s[s.len() - 1] == x);
                }
            }
            if s.contains(x) && pred(x) {
                let l = choose|l: int| 0 <= l < s.len() && s[l] == x;
                if l < front.len() {
                    assert(front[l] == x);
                    assert(front.contains(x));
                    assert(kept.contains(x));
                    let k = choose|k: int| 0 <= k < kept.len() && kept[k] == x;
                    assert(s.filter(pred)[k] == x);
                } else {
                    assert(s.filter(pred) == kept.push(x));
                    assert(s.filter(pred)[kept.len() as int] == x);
                }
            }
        }
    }
}

/// Picking from a sequence without repetitions gives one without repetitions.
pub proof fn picked_distinct<A>(s: Seq<A>, pred: spec_fn(A) -> bool)
    requires
        s.no_duplicates(),
    ensures
        s.filter(pred).no_duplicates(),
    decreases s.len(),
{
    reveal(Seq::filter);
    if s.len() > 0 {
        let front = s.drop_last();
        assert(front.no_duplicates());
        picked_distinct(front, pred);
        picked_members(front, pred);
        let kept = front.filter(pred);
        if pred(s.last()) {
            if kept.contains(s.last()) {
                let l = choose|l: int| 0 <= l < front.len() && front[l] == s.last();
                assert(s[l] == s[s.len() - 1]);
            }
            assert forall|a: int, b: int|
                0 <= a < kept.len() + 1 && 0 <= b < kept.len() + 1 && a != b implies kept.push(
                s.last(),
            )[a] != kept.push(s.last())[b] by {
                if a < kept.len() {
                    assert(kept.contains(kept[a]));
                }
                if b < kept.len() {
                    assert(kept.contains(kept[b]));
                }
            }
        }
    }
}

/// Two predicates that agree on every member pick the same members.
pub proof fn picked_alike<A>(s: Seq<A>, first: spec_fn(A) -> bool, second: spec_fn(A) -> bool)
    requires
        forall|x: A| s.contains(x) ==> first(x) == second(x),
    ensures
        s.filter(first) == s.filter(second),
    decreases s.len(),
{
    reveal(Seq::filter);
    if s.len() > 0 {
        let front = s.drop_last();
        assert forall|x: A| front.contains(x) implies first(x) == second(x) by {
            let l = choose|l: int| 0 <= l < front.len() && front[l] == x;
            assert(s[l] == x);
            assert(s.contains(x));
        }
        picked_alike(front, first, second);
        assert(s[s.len() - 1] == s.last());
        assert(s.contains(s.last()));
    }
}

/// The map in which the values under the first `k` keys of `keys` have been
/// changed and all others are as they were.
pub open spec fn changed_upto<V>(
    m: Map<u64, V>,
    keys: Seq<u64>,
    k: int,
    change: spec_fn(V) -> V,
) -> Map<u64, V> {
    Map::new(
        |key: u64| m.dom().contains(key),
        |key: u64|
            if keys.take(k).contains(key) {
                change(m[key])
            } else {
                m[key]
            },
    )
}

/// Before any key has been visited the map is as it was.
pub proof fn changed_none<V>(m: Map<u64, V>, keys: Seq<u64>, change: spec_fn(V) -> V)
    ensures
        changed_upto(m, keys, 0, change) == m,
{
    assert(keys.take(0).len() == 0);
    assert(changed_upto(m, keys, 0, change) =~= m);
}

/// Visiting the next of distinct keys changes the value under it, which was
/// untouched until then, and nothing else.
pub proof fn changed_next<V>(m: Map<u64, V>, keys: Seq<u64>, k: int, change: spec_fn(V) -> V)
    requires
        0 <= k < keys.len(),
        keys.no_duplicates(),
        m.dom().contains(keys[k]),
    ensures
        changed_upto(m, keys, k, change)[keys[k]] == m[keys[k]],
        changed_upto(m, keys, k + 1, change) == changed_upto(m, keys, k, change).insert(
            keys[k],
            change(m[keys[k]]),
        ),
{
    let before = keys.take(k);
    let upto = keys.take(k + 1);
    if before.contains(keys[k]) {
        let l = choose|l: int| 0 <= l < k && before[l] == keys[k];
        assert(keys[l] == keys[k]);
    }
    assert forall|key: u64| upto.contains(key) <==> (before.contains(key) || key == keys[k]) by {
        if upto.contains(key) {
            let l = choose|l: int| 0 <= l < upto.len() && upto[l] == key;
            if l < k {
                assert(before[l] == key);
            }
        }
        if before.contains(key) {
            let l = choose|l: int| 0 <= l < k && before[l] == key;
            assert(upto[l] == key);
        }
        if key == keys[k] {
            assert(upto[k] == key);
        }
    }
    assert(changed_upto(m, keys, k + 1, change) =~= changed_upto(m, keys, k, change).insert(
        keys[k],
        change(m[keys[k]]),
    ));
}

/// Once every key has been visited, and the change leaves alone what the keys
/// do not name, every value has been changed.
pub proof fn changed_all<V>(m: Map<u64, V>, keys: Seq<u64>, change: spec_fn(V) -> V)
    requires
        forall|key: u64| m.dom().contains(key) && !keys.contains(key) ==> change(m[key]) == m[key],
    ensures
        changed_upto(m, keys, keys.len() as int, change) == m.map_values(change),
{
    assert(keys.take(keys.len() as int) =~= keys);
    assert(changed_upto(m, keys, keys.len() as int, change) =~= m.map_values(change));
}

} // verus!
