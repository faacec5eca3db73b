//! Association lists kept in ascending key order: the mathematical model shared by
//! the maps of this crate, the search that all of them use, and the facts that tie
//! a list to the map it stands for.

use vstd::prelude::*;
use crate::order::{compare, lemma_rank_flip, lemma_rank_same, lemma_rank_transitive, rank, Rank};

verus! {

/// Each key comes strictly before every later one.
pub open spec fn ascending(keys: Seq<Seq<char>>) -> bool {
    forall|i: int, j: int|
        0 <= i < j < keys.len() ==> (#[trigger] rank(keys[i], keys[j])) is Before
}

/// The keys of a list of pairs, in the order of the list.
pub open spec fn keys_of<T>(pairs: Seq<(Seq<char>, T)>) -> Seq<Seq<char>> {
    pairs.map_values(|p: (Seq<char>, T)| p.0)
}

/// Whether some pair of the list has the given key.
pub open spec fn has_key<T>(pairs: Seq<(Seq<char>, T)>, key: Seq<char>) -> bool {
    exists|i: int| 0 <= i < pairs.len() && (#[trigger] pairs[i]).0 == key
}

/// `base` after each pair of the list has been inserted in turn, so that of two
/// pairs with one key the later one stays.
pub open spec fn extend<T>(base: Map<Seq<char>, T>, pairs: Seq<(Seq<char>, T)>) -> Map<
    Seq<char>,
    T,
>
    decreases pairs.len(),
{
    if pairs.len() == 0 {
        base
    } else {
        extend(base, pairs.drop_last()).insert(pairs.last().0, pairs.last().1)
    }
}

/// The map that a list of pairs stands for.
pub open spec fn map_of<T>(pairs: Seq<(Seq<char>, T)>) -> Map<Seq<char>, T> {
    extend(Map::empty(), pairs)
}

/// The keys of stored entries, as character sequences.
pub open spec fn names<V>(entries: Seq<(String, V)>) -> Seq<Seq<char>> {
    entries.map_values(|e: (String, V)| e.0@)
}

/// Where a key is, or where it would have to go.
pub enum Slot {
    /// The key is at this index.
    Found(usize),
    /// The key is absent; inserted at this index it keeps the list ascending.
    Vacant(usize),
}

/// `slot` answers the question where `key` stands among `keys`.
pub open spec fn locates(keys: Seq<Seq<char>>, key: Seq<char>, slot: Slot) -> bool {
    match slot {
        Slot::Found(i) => i < keys.len() && keys[i as int] == key,
        Slot::Vacant(i) => {
            &&& i <= keys.len()
            &&& forall|j: int| 0 <= j < i ==> (#[trigger] rank(keys[j], key)) is Before
            &&& forall|j: int| i <= j < keys.len() ==> (#[trigger] rank(key, keys[j])) is Before
        },
    }
}

/// Binary search for `key` among entries whose keys ascend.
pub fn search<V>(entries: &Vec<(String, V)>, key: &str) -> (slot: Slot)
    requires
        ascending(names(entries@)),
    ensures
        locates(names(entries@), key@, slot),
{
    let ghost keys = names(entries@);
    let mut lo: usize = 0;
    let mut hi: usize = entries.len();
    while lo < hi
        invariant
            keys == names(entries@),
            ascending(keys),
            0 <= lo <= hi <= entries.len(),
            forall|j: int| 0 <= j < lo ==> (#[trigger] rank(keys[j], key@)) is Before,
            forall|j: int| hi <= j < keys.len() ==> (#[trigger] rank(key@, keys[j])) is Before,
        decreases hi - lo,
    {
        let mid: usize = lo + (hi - lo) / 2;
        let probe = compare(entries[mid].0.as_str(), key);
        assert(keys[mid as int] == entries[mid as int].0@);
        match probe {
            Rank::Same => {
                proof {
                    lemma_rank_same(keys[mid as int], key@);
                }
                return Slot::Found(mid);
            },
            Rank::Before => {
                proof {
                    assert forall|j: int| 0 <= j < mid + 1 implies (#[trigger] rank(
                        keys[j],
                        key@,
                    )) is Before by {
                        if j < mid {
                            assert(rank(keys[j], keys[mid as int]) is Before);
                            lemma_rank_transitive(keys[j], keys[mid as int], key@);
                        }
                    }
                }
                lo = mid + 1;
            },
            Rank::After => {
                proof {
                    lemma_rank_flip(key@, keys[mid as int]);
                    assert forall|j: int| mid <= j < keys.len() implies (#[trigger] rank(
                        key@,
                        keys[j],
                    )) is Before by {
                        if mid < j {
                            assert(rank(keys[mid as int], keys[j]) is Before);
                            lemma_rank_transitive(key@, keys[mid as int], keys[j]);
                        }
                    }
                }
                hi = mid;
            },
        }
    }
    Slot::Vacant(lo)
}

/// A key that has a vacant slot differs from every key of the list.
pub proof fn lemma_vacant_absent(keys: Seq<Seq<char>>, key: Seq<char>, at: usize)
    requires
        locates(keys, key, Slot::Vacant(at)),
    ensures
        forall|j: int| 0 <= j < keys.len() ==> #[trigger] keys[j] != key,
{
    assert forall|j: int| 0 <= j < keys.len() implies #[trigger] keys[j] != key by {
        lemma_rank_same(keys[j], key);
        lemma_rank_same(key, keys[j]);
        if j < at {
            assert(rank(keys[j], key) is Before);
        } else {
            assert(rank(key, keys[j]) is Before);
        }
    }
}

/// Ascending keys are pairwise different.
pub proof fn lemma_ascending_distinct(keys: Seq<Seq<char>>)
    requires
        ascending(keys),
    ensures
        forall|i: int, j: int|
            0 <= i < keys.len() && 0 <= j < keys.len() && i != j ==> #[trigger] keys[i]
                != #[trigger] keys[j],
{
    assert forall|i: int, j: int|
        0 <= i < keys.len() && 0 <= j < keys.len() && i != j implies #[trigger] keys[i]
        != #[trigger] keys[j] by {
        lemma_rank_same(keys[i], keys[j]);
        if i < j {
            assert(rank(keys[i], keys[j]) is Before);
        } else {
            assert(rank(keys[j], keys[i]) is Before);
            lemma_rank_flip(keys[j], keys[i]);
        }
    }
}

/// Putting a key into its vacant slot keeps the keys ascending.
pub proof fn lemma_insert_ascending(keys: Seq<Seq<char>>, key: Seq<char>, at: usize)
    requires
        ascending(keys),
        locates(keys, key, Slot::Vacant(at)),
    ensures
        ascending(keys.insert(at as int, key)),
{
    let grown = keys.insert(at as int, key);
    assert forall|i: int, j: int| 0 <= i < j < grown.len() implies (#[trigger] rank(
        grown[i],
        grown[j],
    )) is Before by {
        if j < at {
            assert(rank(keys[i], keys[j]) is Before);
        } else if j == at {
            assert(rank(keys[i], key) is Before);
        } else if i < at {
            assert(rank(keys[i], keys[j - 1]) is Before);
        } else if i == at {
            assert(rank(key, keys[j - 1]) is Before);
        } else {
            assert(rank(keys[i - 1], keys[j - 1]) is Before);
        }
    }
}

/// A key is in the extended map exactly when it was in `base` or is a key of the list.
pub proof fn lemma_extend_dom<T>(base: Map<Seq<char>, T>, pairs: Seq<(Seq<char>, T)>)
    ensures
        forall|key: Seq<char>| #[trigger]
            extend(base, pairs).contains_key(key) <==> base.contains_key(key) || has_key(
                pairs,
                key,
            ),
    decreases pairs.len(),
{
    if pairs.len() > 0 {
        let front = pairs.drop_last();
        lemma_extend_dom(base, front);
        assert forall|key: Seq<char>| #[trigger]
            extend(base, pairs).contains_key(key) <==> base.contains_key(key) || has_key(
                pairs,
                key,
            ) by {
            let last = pairs.last();
            assert(extend(base, pairs) == extend(base, front).insert(last.0, last.1));
            assert(extend(base, front).contains_key(key) <==> base.contains_key(key) || has_key(
                front,
                key,
            ));
            if has_key(front, key) {
                let i = choose|i: int| 0 <= i < front.len() && (#[trigger] front[i]).0 == key;
                assert(0 <= i < front.len());
                assert(pairs[i] == front[i]);
                assert(has_key(pairs, key));
            }
            if has_key(pairs, key) && key != last.0 {
                let i = choose|i: int| 0 <= i < pairs.len() && (#[trigger] pairs[i]).0 == key;
                assert(i < front.len());
                assert(front[i] == pairs[i]);
                assert(has_key(front, key));
            }
            if key == last.0 {
                assert(pairs[pairs.len() - 1].0 == key);
                assert(has_key(pairs, key));
            }
        }
    }
}

/// The extended map gives a key the value of the last pair that has it.
pub proof fn lemma_extend_value<T>(base: Map<Seq<char>, T>, pairs: Seq<(Seq<char>, T)>, i: int)
    requires
        0 <= i < pairs.len(),
        forall|j: int| i < j < pairs.len() ==> (#[trigger] pairs[j]).0 != pairs[i].0,
    ensures
        extend(base, pairs).contains_key(pairs[i].0),
        extend(base, pairs)[pairs[i].0] == pairs[i].1,
    decreases pairs.len(),
{
    if i < pairs.len() - 1 {
        let front = pairs.drop_last();
        assert(front[i] == pairs[i]);
        assert forall|j: int| i < j < front.len() implies (#[trigger] front[j]).0
            != front[i].0 by {
            assert(front[j] == pairs[j]);
        }
        lemma_extend_value(base, front, i);
        assert(pairs[pairs.len() - 1].0 != pairs[i].0);
    }
}

/// A key that no pair has keeps what `base` says of it.
pub proof fn lemma_extend_miss<T>(
    base: Map<Seq<char>, T>,
    pairs: Seq<(Seq<char>, T)>,
    key: Seq<char>,
)
    requires
        !has_key(pairs, key),
    ensures
        extend(base, pairs).contains_key(key) == base.contains_key(key),
        extend(base, pairs)[key] == base[key],
    decreases pairs.len(),
{
    if pairs.len() > 0 {
        let front = pairs.drop_last();
        if has_key(front, key) {
            let i = choose|i: int| 0 <= i < front.len() && (#[trigger] front[i]).0 == key;
            assert(pairs[i].0 == key);
        }
        assert(pairs[pairs.len() - 1].0 != key);
        lemma_extend_miss(base, front, key);
    }
}

/// With ascending keys, the map holds each pair of the list and nothing else.
pub proof fn lemma_map_of_ascending<T>(pairs: Seq<(Seq<char>, T)>)
    requires
        ascending(keys_of(pairs)),
    ensures
        forall|i: int|
            0 <= i < pairs.len() ==> map_of(pairs).contains_key((#[trigger] pairs[i]).0) && map_of(
                pairs,
            )[pairs[i].0] == pairs[i].1,
        forall|key: Seq<char>| #[trigger] map_of(pairs).contains_key(key) <==> has_key(pairs, key),
{
    lemma_ascending_distinct(keys_of(pairs));
    lemma_extend_dom(Map::<Seq<char>, T>::empty(), pairs);
    assert forall|i: int| 0 <= i < pairs.len() implies map_of(pairs).contains_key(
        (#[trigger] pairs[i]).0,
    ) && map_of(pairs)[pairs[i].0] == pairs[i].1 by {
        assert forall|j: int| i < j < pairs.len() implies (#[trigger] pairs[j]).0
            != pairs[i].0 by {
            assert(keys_of(pairs)[j] != keys_of(pairs)[i]);
        }
        lemma_extend_value(Map::<Seq<char>, T>::empty(), pairs, i);
    }
}

/// Giving the pair at `i` a new value changes the map at that pair's key only.
pub proof fn lemma_update_pair<T>(pairs: Seq<(Seq<char>, T)>, i: int, value: T)
    requires
        ascending(keys_of(pairs)),
        0 <= i < pairs.len(),
    ensures
        ascending(keys_of(pairs.update(i, (pairs[i].0, value)))),
        map_of(pairs.update(i, (pairs[i].0, value))) == map_of(pairs).insert(pairs[i].0, value),
{
    let key = pairs[i].0;
    let changed = pairs.update(i, (key, value));
    assert(keys_of(changed) =~= keys_of(pairs));
    lemma_map_of_ascending(pairs);
    lemma_map_of_ascending(changed);
    let target = map_of(pairs).insert(key, value);
    assert forall|k: Seq<char>| map_of(changed).contains_key(k) <==> target.contains_key(k) by {
        if has_key(changed, k) {
            let j = choose|j: int| 0 <= j < changed.len() && (#[trigger] changed[j]).0 == k;
            assert(pairs[j].0 == k);
        }
        if has_key(pairs, k) {
            let j = choose|j: int| 0 <= j < pairs.len() && (#[trigger] pairs[j]).0 == k;
            assert(changed[j].0 == k);
        }
        assert(changed[i].0 == key);
    }
    assert forall|k: Seq<char>| map_of(changed).contains_key(k) implies map_of(changed)[k]
        == target[k] by {
        let j = choose|j: int| 0 <= j < changed.len() && (#[trigger] changed[j]).0 == k;
        assert(map_of(changed)[changed[j].0] == changed[j].1);
        if j != i {
            assert(changed[j] == pairs[j]);
            assert(map_of(pairs)[pairs[j].0] == pairs[j].1);
            lemma_ascending_distinct(keys_of(pairs));
            assert(keys_of(pairs)[j] != keys_of(pairs)[i]);
        }
    }
    assert(map_of(changed) =~= target);
}

/// Putting a new pair into its vacant slot adds exactly that pair to the map.
pub proof fn lemma_insert_pair<T>(pairs: Seq<(Seq<char>, T)>, at: usize, key: Seq<char>, value: T)
    requires
        ascending(keys_of(pairs)),
        locates(keys_of(pairs), key, Slot::Vacant(at)),
    ensures
        ascending(keys_of(pairs.insert(at as int, (key, value)))),
        map_of(pairs.insert(at as int, (key, value))) == map_of(pairs).insert(key, value),
{
    let grown = pairs.insert(at as int, (key, value));
    lemma_insert_ascending(keys_of(pairs), key, at);
    assert(keys_of(grown) =~= keys_of(pairs).insert(at as int, key));
    lemma_map_of_ascending(pairs);
    lemma_map_of_ascending(grown);
    lemma_vacant_absent(keys_of(pairs), key, at);
    let target = map_of(pairs).insert(key, value);
    assert forall|k: Seq<char>| map_of(grown).contains_key(k) <==> target.contains_key(k) by {
        if has_key(grown, k) && k != key {
            let j = choose|j: int| 0 <= j < grown.len() && (#[trigger] grown[j]).0 == k;
            if j < at {
                assert(pairs[j].0 == k);
            } else {
                assert(pairs[j - 1].0 == k);
            }
        }
        if has_key(pairs, k) {
            let j = choose|j: int| 0 <= j < pairs.len() && (#[trigger] pairs[j]).0 == k;
            if j < at {
                assert(grown[j].0 == k);
            } else {
                assert(grown[j + 1].0 == k);
            }
        }
        assert(grown[at as int].0 == key);
    }
    assert forall|k: Seq<char>| map_of(grown).contains_key(k) implies map_of(grown)[k]
        == target[k] by {
        let j = choose|j: int| 0 <= j < grown.len() && (#[trigger] grown[j]).0 == k;
        assert(map_of(grown)[grown[j].0] == grown[j].1);
        if j < at {
            assert(grown[j] == pairs[j]);
            assert(map_of(pairs)[pairs[j].0] == pairs[j].1);
            assert(keys_of(pairs)[j] != key);
        } else if j > at {
            assert(grown[j] == pairs[j - 1]);
            assert(map_of(pairs)[pairs[j - 1].0] == pairs[j - 1].1);
            assert(keys_of(pairs)[j - 1] != key);
        }
    }
    assert(map_of(grown) =~= target);
}

/// Dropping the last pair keeps the keys ascending.
pub proof fn lemma_front_ascending<T>(pairs: Seq<(Seq<char>, T)>)
    requires
        ascending(keys_of(pairs)),
        pairs.len() > 0,
    ensures
        ascending(keys_of(pairs.drop_last())),
{
    let keys = keys_of(pairs);
    let front = keys_of(pairs.drop_last());
    assert forall|i: int, j: int| 0 <= i < j < front.len() implies (#[trigger] rank(
        front[i],
        front[j],
    )) is Before by {
        assert(rank(keys[i], keys[j]) is Before);
    }
}

/// With ascending keys, the map has as many keys as the list has pairs.
pub proof fn lemma_map_of_len<T>(pairs: Seq<(Seq<char>, T)>)
    requires
        ascending(keys_of(pairs)),
    ensures
        map_of(pairs).dom().finite(),
        map_of(pairs).len() == pairs.len(),
    decreases pairs.len(),
{
    if pairs.len() > 0 {
        let front = pairs.drop_last();
        lemma_front_ascending(pairs);
        lemma_map_of_len(front);
        lemma_map_of_ascending(front);
        lemma_ascending_distinct(keys_of(pairs));
        if has_key(front, pairs.last().0) {
            let i = choose|i: int| 0 <= i < front.len() && (#[trigger] front[i]).0 == pairs.last().0;
            assert(keys_of(pairs)[i] == keys_of(pairs)[pairs.len() - 1]);
        }
        assert(!map_of(front).contains_key(pairs.last().0));
    }
}

/// With ascending keys, the map without the last key is the map of the other pairs.
pub proof fn lemma_front_map<T>(pairs: Seq<(Seq<char>, T)>)
    requires
        ascending(keys_of(pairs)),
        pairs.len() > 0,
    ensures
        map_of(pairs.drop_last()) == map_of(pairs).remove(pairs.last().0),
{
    let front = pairs.drop_last();
    lemma_front_ascending(pairs);
    lemma_map_of_ascending(front);
    lemma_ascending_distinct(keys_of(pairs));
    if has_key(front, pairs.last().0) {
        let i = choose|i: int| 0 <= i < front.len() && (#[trigger] front[i]).0 == pairs.last().0;
        assert(keys_of(pairs)[i] == keys_of(pairs)[pairs.len() - 1]);
    }
    assert(map_of(front) =~= map_of(pairs).remove(pairs.last().0));
}

/// Two lists with ascending keys that stand for the same map are the same list.
pub proof fn lemma_ascending_unique<T>(p: Seq<(Seq<char>, T)>, q: Seq<(Seq<char>, T)>)
    requires
        ascending(keys_of(p)),
        ascending(keys_of(q)),
        map_of(p) == map_of(q),
    ensures
        p == q,
    decreases p.len(),
{
    lemma_map_of_ascending(p);
    lemma_map_of_ascending(q);
    lemma_map_of_len(p);
    lemma_map_of_len(q);
    if p.len() > 0 {
        let n = p.len() - 1;
        let (kp, kq) = (keys_of(p), keys_of(q));
        assert(map_of(q).contains_key(p[n].0));
        let j = choose|j: int| 0 <= j < q.len() && (#[trigger] q[j]).0 == p[n].0;
        assert(map_of(p).contains_key(q[n].0));
        let i = choose|i: int| 0 <= i < p.len() && (#[trigger] p[i]).0 == q[n].0;
        if j < n {
            assert(rank(kq[j], kq[n]) is Before);
            if i < n {
                assert(rank(kp[i], kp[n]) is Before);
                lemma_rank_flip(kp[n], kp[i]);
            } else {
                lemma_rank_same(kp[n], kp[n]);
            }
        }
        assert(q[n].0 == p[n].0);
        assert(map_of(p)[p[n].0] == p[n].1);
        assert(map_of(q)[q[n].0] == q[n].1);
        assert(p[n] == q[n]);
        lemma_front_ascending(p);
        lemma_front_ascending(q);
        lemma_front_map(p);
        lemma_front_map(q);
        lemma_ascending_unique(p.drop_last(), q.drop_last());
        assert(p =~= p.drop_last().push(p[n]));
        assert(q =~= q.drop_last().push(q[n]));
    } else {
        assert(p =~= q);
    }
}

} // verus!
