//! Sequences of key-value pairs, as a recency-ordered cache holds them.

use vstd::prelude::*;

verus! {

/// The value under `key`.
pub open spec fn lookup<K, V>(s: Seq<(K, V)>, key: K) -> Option<V>
    decreases s.len(),
{
    if s.len() == 0 {
        None
    } else if s[0].0 == key {
        Some(s[0].1)
    } else {
        lookup(s.drop_first(), key)
    }
}

/// `s` without what stands under `key`.
pub open spec fn without<K, V>(s: Seq<(K, V)>, key: K) -> Seq<(K, V)>
    decreases s.len(),
{
    if s.len() == 0 {
        s
    } else if s[0].0 == key {
        without(s.drop_first(), key)
    } else {
        seq![s[0]] + without(s.drop_first(), key)
    }
}

/// `s` with `key` moved or added to the front. Where that makes more than `capacity` pairs, the
/// last one is dropped.
pub open spec fn pushed<K, V>(s: Seq<(K, V)>, capacity: nat, key: K, value: V) -> Seq<(K, V)> {
    let all = seq![(key, value)] + without(s, key);
    if all.len() > capacity {
        all.drop_last()
    } else {
        all
    }
}

/// No key stands twice.
pub open spec fn distinct<K, V>(s: Seq<(K, V)>) -> bool {
    forall|i: int, j: int| 0 <= i < j < s.len() ==> (#[trigger] s[i]).0 != (#[trigger] s[j]).0
}

/// `key` stands nowhere.
pub open spec fn absent<K, V>(s: Seq<(K, V)>, key: K) -> bool {
    forall|i: int| 0 <= i < s.len() ==> (#[trigger] s[i]).0 != key
}

pub proof fn lemma_lookup_absent<K, V>(s: Seq<(K, V)>, key: K)
    ensures
        absent(s, key) <==> lookup(s, key) is None,
    decreases s.len(),
{
    if s.len() > 0 {
        let rest = s.drop_first();
        lemma_lookup_absent(rest, key);
        if absent(s, key) {
            assert forall|i: int| 0 <= i < rest.len() implies (#[trigger] rest[i]).0 != key by {
                assert(rest[i] == s[i + 1]);
            }
            assert(s[0].0 != key);
        } else if s[0].0 != key {
            let i = choose|i: int| 0 <= i < s.len() && (#[trigger] s[i]).0 == key;
            assert(rest[i - 1] == s[i]);
        }
    }
}

/// What `lookup` finds stands in the sequence.
pub proof fn lemma_lookup_found<K, V>(s: Seq<(K, V)>, key: K) -> (at: int)
    requires
        lookup(s, key) is Some,
    ensures
        0 <= at < s.len(),
        s[at] == (key, lookup(s, key).unwrap()),
    decreases s.len(),
{
    if s[0].0 == key {
        0
    } else {
        let at = lemma_lookup_found(s.drop_first(), key);
        at + 1
    }
}

/// What stands in a sequence of distinct keys is what `lookup` finds.
pub proof fn lemma_lookup_at<K, V>(s: Seq<(K, V)>, i: int)
    requires
        distinct(s),
        0 <= i < s.len(),
    ensures
        lookup(s, s[i].0) == Some(s[i].1),
    decreases s.len(),
{
    if i > 0 {
        assert(s[0].0 != s[i].0);
        let rest = s.drop_first();
        assert(rest[i - 1] == s[i]);
        assert(distinct(rest)) by {
            assert forall|a: int, b: int| 0 <= a < b < rest.len() implies (#[trigger] rest[a]).0
                != (#[trigger] rest[b]).0 by {
                assert(rest[a] == s[a + 1] && rest[b] == s[b + 1]);
            }
        }
        lemma_lookup_at(rest, i - 1);
    }
}

/// Removing a key takes that key away and nothing else.
pub proof fn lemma_without<K, V>(s: Seq<(K, V)>, key: K)
    ensures
        absent(without(s, key), key),
        without(s, key).len() <= s.len(),
        absent(s, key) ==> without(s, key) == s,
        !absent(s, key) ==> without(s, key).len() < s.len(),
        forall|other: K|
            other != key ==> #[trigger] lookup(without(s, key), other) == lookup(s, other),
        forall|i: int|
            0 <= i < without(s, key).len() ==> s.contains(#[trigger] without(s, key)[i]),
        distinct(s) ==> distinct(without(s, key)),
    decreases s.len(),
{
    if s.len() > 0 {
        let rest = s.drop_first();
        lemma_without(rest, key);
        let less = without(rest, key);
        let result = without(s, key);
        assert(forall|i: int| 0 <= i < rest.len() ==> rest[i] == s[i + 1]);
        if s[0].0 != key {
            assert(result =~= seq![s[0]] + less);
            assert(result.drop_first() =~= less);
        }
        assert forall|other: K| other != key implies #[trigger] lookup(result, other) == lookup(
            s,
            other,
        ) by {
            assert(lookup(less, other) == lookup(rest, other));
        }
        assert forall|i: int| 0 <= i < result.len() implies s.contains(#[trigger] result[i]) by {
            let e = result[i];
            if s[0].0 != key && i == 0 {
                assert(s[0] == e);
            } else {
                let k = if s[0].0 != key {
                    i - 1
                } else {
                    i
                };
                assert(less[k] == e);
                assert(rest.contains(less[k]));
                let j = choose|j: int| 0 <= j < rest.len() && rest[j] == e;
                assert(s[j + 1] == e);
            }
        }
        if absent(s, key) {
            assert(absent(rest, key)) by {
                assert forall|i: int| 0 <= i < rest.len() implies (#[trigger] rest[i]).0 != key by {
                    assert(rest[i] == s[i + 1]);
                }
            }
            assert(s[0].0 != key);
            assert(result =~= s);
        } else if s[0].0 != key {
            let i = choose|i: int| 0 <= i < s.len() && (#[trigger] s[i]).0 == key;
            assert(rest[i - 1].0 == key);
        }
        if distinct(s) {
            assert(distinct(rest)) by {
                assert forall|a: int, b: int| 0 <= a < b < rest.len() implies (#[trigger] rest[a]).0
                    != (#[trigger] rest[b]).0 by {
                    assert(rest[a] == s[a + 1] && rest[b] == s[b + 1]);
                }
            }
            assert forall|a: int, b: int| 0 <= a < b < result.len() implies (#[trigger] result[a]).0
                != (#[trigger] result[b]).0 by {
                if s[0].0 != key {
                    assert(result[b] == less[b - 1]);
                    if a == 0 {
                        assert(rest.contains(less[b - 1]));
                        let j = choose|j: int| 0 <= j < rest.len() && rest[j] == less[b - 1];
                        assert(s[j + 1] == result[b]);
                        assert(s[0].0 != s[j + 1].0);
                    } else {
                        assert(result[a] == less[a - 1]);
                    }
                } else {
                    assert(result == less);
                }
            }
        }
    }
}

/// Among distinct keys, removing the key at `i` removes that one pair.
pub proof fn lemma_without_at<K, V>(s: Seq<(K, V)>, i: int)
    requires
        distinct(s),
        0 <= i < s.len(),
    ensures
        without(s, s[i].0) == s.remove(i),
    decreases s.len(),
{
    let key = s[i].0;
    let rest = s.drop_first();
    assert(distinct(rest)) by {
        assert forall|a: int, b: int| 0 <= a < b < rest.len() implies (#[trigger] rest[a]).0 != (
        #[trigger] rest[b]).0 by {
            assert(rest[a] == s[a + 1] && rest[b] == s[b + 1]);
        }
    }
    if i == 0 {
        lemma_without(rest, key);
        assert(absent(rest, key)) by {
            assert forall|j: int| 0 <= j < rest.len() implies (#[trigger] rest[j]).0 != key by {
                assert(rest[j] == s[j + 1]);
                assert(s[0].0 != s[j + 1].0);
            }
        }
        assert(s.remove(0) =~= rest);
    } else {
        assert(s[0].0 != s[i].0);
        assert(rest[i - 1] == s[i]);
        lemma_without_at(rest, i - 1);
        assert(s.remove(i) =~= seq![s[0]] + rest.remove(i - 1));
    }
}

/// A prefix finds nothing that the whole does not.
pub proof fn lemma_lookup_drop_last<K, V>(s: Seq<(K, V)>, key: K)
    requires
        s.len() > 0,
    ensures
        lookup(s.drop_last(), key) is Some ==> lookup(s.drop_last(), key) == lookup(s, key),
        lookup(s.drop_last(), key) is None && lookup(s, key) is Some ==> s.last().0 == key,
    decreases s.len(),
{
    reveal_with_fuel(lookup, 2);
    if s.len() > 1 && s[0].0 != key {
        assert(s.drop_last().drop_first() =~= s.drop_first().drop_last());
        lemma_lookup_drop_last(s.drop_first(), key);
    }
}

/// Pushing a key into a cache of distinct keys keeps the keys distinct and the size within
/// `capacity`, puts the pair in front, and leaves every other key as it was or drops it.
pub proof fn lemma_pushed<K, V>(s: Seq<(K, V)>, capacity: nat, key: K, value: V)
    requires
        distinct(s),
        s.len() <= capacity,
        capacity > 0,
    ensures
        distinct(pushed(s, capacity, key, value)),
        pushed(s, capacity, key, value).len() <= capacity,
        lookup(pushed(s, capacity, key, value), key) == Some(value),
        forall|other: K|
            other != key && #[trigger] lookup(pushed(s, capacity, key, value), other) is Some
                ==> lookup(pushed(s, capacity, key, value), other) == lookup(s, other),
{
    lemma_without(s, key);
    let less = without(s, key);
    let all = seq![(key, value)] + less;
    let result = pushed(s, capacity, key, value);
    assert(all.drop_first() =~= less);
    assert forall|i: int, j: int| 0 <= i < j < all.len() implies (#[trigger] all[i]).0 != (
    #[trigger] all[j]).0 by {
        assert(all[j] == less[j - 1]);
        if i > 0 {
            assert(all[i] == less[i - 1]);
        }
    }
    assert(forall|i: int| 0 <= i < result.len() ==> result[i] == all[i]);
    assert(distinct(result)) by {
        assert forall|i: int, j: int| 0 <= i < j < result.len() implies (#[trigger] result[i]).0
            != (#[trigger] result[j]).0 by {
            assert(result[i] == all[i] && result[j] == all[j]);
        }
    }
    assert(result[0] == all[0]);
    assert forall|other: K| other != key && #[trigger] lookup(result, other) is Some implies lookup(
        result,
        other,
    ) == lookup(s, other) by {
        lemma_lookup_drop_last(all, other);
        assert(lookup(all, other) == lookup(less, other));
    }
}

/// Pushing a new key into a full cache drops the last pair; other keys keep their values.
pub proof fn lemma_pushed_lookup<K, V>(s: Seq<(K, V)>, capacity: nat, key: K, value: V, other: K)
    requires
        distinct(s),
        s.len() <= capacity,
        capacity > 0,
        other != key,
    ensures
        lookup(pushed(s, capacity, key, value), other) == if absent(s, key) && s.len() == capacity
            && s.last().0 == other {
            None
        } else {
            lookup(s, other)
        },
{
    lemma_without(s, key);
    let less = without(s, key);
    let all = seq![(key, value)] + less;
    assert(all.drop_first() =~= less);
    assert(lookup(all, other) == lookup(less, other));
    if all.len() > capacity {
        assert(less == s);
        let kept = all.drop_last();
        lemma_lookup_drop_last(all, other);
        if s.last().0 == other {
            assert forall|i: int| 0 <= i < kept.len() implies (#[trigger] kept[i]).0 != other by {
                if i > 0 {
                    assert(kept[i] == s[i - 1]);
                    assert(s[i - 1].0 != s[s.len() - 1].0);
                }
            }
            lemma_lookup_absent(kept, other);
        } else {
            assert(all.last() == s.last());
        }
    } else if absent(s, key) {
        assert(s.len() < capacity);
    }
}

} // verus!
