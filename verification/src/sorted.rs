//! Ordered collections keyed by byte strings: the ordered maps and sets of the original,
//! held as vectors whose keys strictly increase.
use vstd::prelude::*;
use crate::text::{bytes_lt, compare_bytes, lemma_bytes_lt_transitive, lemma_bytes_lt_trichotomy};

verus! {

/// The keys of the entries strictly increase: the entries are ordered and no key repeats.
pub open spec fn keys_sorted<T>(s: Seq<(Vec<u8>, T)>) -> bool {
    forall|a: int, b: int| 0 <= a < b < s.len() ==> bytes_lt(#[trigger] s[a].0@, #[trigger] s[b].0@)
}

/// Some entry has this key.
pub open spec fn has_key<T>(s: Seq<(Vec<u8>, T)>, key: Seq<u8>) -> bool {
    exists|k: int| 0 <= k < s.len() && (#[trigger] s[k]).0@ == key
}

proof fn lemma_insert_keeps_sorted<T>(before: Seq<(Vec<u8>, T)>, p: int, e: (Vec<u8>, T))
    requires
        0 <= p <= before.len(),
        keys_sorted(before),
        forall|k: int| 0 <= k < p ==> bytes_lt((#[trigger] before[k]).0@, e.0@),
        p < before.len() ==> bytes_lt(e.0@, before[p].0@),
    ensures
        keys_sorted(before.insert(p, e)),
        !has_key(before, e.0@),
{
    let key = e.0@;
    let after = before.insert(p, e);
    assert forall|k: int| 0 <= k < before.len() implies (#[trigger] before[k]).0@ != key by {
        lemma_bytes_lt_trichotomy(before[k].0@, key);
        if k > p {
            lemma_bytes_lt_transitive(key, before[p].0@, before[k].0@);
        }
    }
    assert forall|a: int, b: int| 0 <= a < b < after.len() implies bytes_lt(
        #[trigger] after[a].0@,
        #[trigger] after[b].0@,
    ) by {
        if b < p {
            assert(after[a] == before[a]);
            assert(after[b] == before[b]);
        } else if b == p {
            assert(after[a] == before[a]);
        } else if a < p {
            assert(after[a] == before[a]);
            assert(after[b] == before[b - 1]);
            if b - 1 > p {
                lemma_bytes_lt_transitive(key, before[p].0@, before[b - 1].0@);
            }
            lemma_bytes_lt_transitive(before[a].0@, key, before[b - 1].0@);
        } else if a == p {
            assert(after[b] == before[b - 1]);
            if b - 1 > p {
                lemma_bytes_lt_transitive(key, before[p].0@, before[b - 1].0@);
            }
        } else {
            assert(after[a] == before[a - 1]);
            assert(after[b] == before[b - 1]);
        }
    }
}

/// Inserts `item` under `key` at its place in the order, unless an entry already has that
/// key, in which case the collection stays as it was. Returns whether it inserted.
pub fn insert_unique<T>(list: &mut Vec<(Vec<u8>, T)>, key: Vec<u8>, item: T) -> (inserted: bool)
    requires
        keys_sorted(old(list)@),
    ensures
        keys_sorted(final(list)@),
        inserted == !has_key(old(list)@, key@),
        !inserted ==> final(list)@ == old(list)@,
        inserted ==> exists|p: int|
            0 <= p <= old(list)@.len() && final(list)@ == old(list)@.insert(p, (key, item)),
{
    let n = list.len();
    let mut p: usize = 0;
    while p < n
        invariant
            n == list@.len(),
            p <= n,
            keys_sorted(list@),
            forall|k: int| 0 <= k < p ==> bytes_lt((#[trigger] list@[k]).0@, key@),
        ensures
            p <= n,
            keys_sorted(list@),
            forall|k: int| 0 <= k < p ==> bytes_lt((#[trigger] list@[k]).0@, key@),
            p < n ==> bytes_lt(key@, list@[p as int].0@),
        decreases n - p,
    {
        let c = compare_bytes(list[p].0.as_slice(), key.as_slice());
        if c == 0 {
            proof {
                assert(list@[p as int].0@ == key@);
            }
            return false;
        }
        if c > 0 {
            break;
        }
        p = p + 1;
    }
    let ghost before = list@;
    let e = (key, item);
    proof {
        lemma_insert_keeps_sorted(before, p as int, e);
    }
    list.insert(p, e);
    proof {
        assert(list@ == before.insert(p as int, e));
    }
    true
}

/// The entry with this key, if any.
pub fn find_key<T>(list: &Vec<(Vec<u8>, T)>, key: &[u8]) -> (r: Option<usize>)
    ensures
        match r {
            Some(i) => i < list@.len() && list@[i as int].0@ == key@,
            None => !has_key(list@, key@),
        },
{
    let n = list.len();
    let mut i: usize = 0;
    while i < n
        invariant
            n == list@.len(),
            i <= n,
            forall|k: int| 0 <= k < i ==> (#[trigger] list@[k]).0@ != key@,
        decreases n - i,
    {
        if compare_bytes(list[i].0.as_slice(), key) == 0 {
            return Some(i);
        }
        i = i + 1;
    }
    None
}

/// `order` lists every position of `keys` once, by key, equal keys in their input order:
/// what a stable sort by these keys gives.
pub open spec fn stably_sorted(keys: Seq<Seq<u8>>, order: Seq<usize>) -> bool {
    &&& order.len() == keys.len()
    &&& order.no_duplicates()
    &&& forall|q: int| 0 <= q < order.len() ==> #[trigger] order[q] < keys.len()
    &&& forall|p: int, q: int| 0 <= p < q < order.len() ==> !bytes_lt(
        keys[#[trigger] order[q] as int],
        keys[#[trigger] order[p] as int],
    )
    &&& forall|p: int, q: int|
        0 <= p < q < order.len() && keys[#[trigger] order[p] as int] == keys[#[trigger] order[q] as int]
            ==> order[p] < order[q]
}

proof fn lemma_stable_insert(keys: Seq<Seq<u8>>, before: Seq<usize>, p: int, i: usize)
    requires
        0 <= p <= before.len(),
        i < keys.len(),
        before.len() == i,
        before.no_duplicates(),
        forall|q: int| 0 <= q < before.len() ==> #[trigger] before[q] < i,
        forall|a: int, b: int| 0 <= a < b < before.len() ==> !bytes_lt(
            keys[#[trigger] before[b] as int],
            keys[#[trigger] before[a] as int],
        ),
        forall|a: int, b: int|
            0 <= a < b < before.len() && keys[#[trigger] before[a] as int] == keys[#[trigger] before[b] as int]
                ==> before[a] < before[b],
        forall|q: int| 0 <= q < p ==> !bytes_lt(keys[i as int], keys[#[trigger] before[q] as int]),
        p < before.len() ==> bytes_lt(keys[i as int], keys[before[p] as int]),
    ensures
        ({
            let order = before.insert(p, i);
            &&& order.len() == i + 1
            &&& order.no_duplicates()
            &&& forall|q: int| 0 <= q < order.len() ==> #[trigger] order[q] < i + 1
            &&& forall|a: int, b: int| 0 <= a < b < order.len() ==> !bytes_lt(
                keys[#[trigger] order[b] as int],
                keys[#[trigger] order[a] as int],
            )
            &&& forall|a: int, b: int|
                0 <= a < b < order.len() && keys[#[trigger] order[a] as int] == keys[#[trigger] order[b] as int]
                    ==> order[a] < order[b]
        }),
{
    let order = before.insert(p, i);
    let x = keys[i as int];
    assert forall|a: int, b: int| 0 <= a < order.len() && 0 <= b < order.len() && a != b implies order[a] != order[b] by {
        if a != p && b != p {
            let a0 = if a < p { a } else { a - 1 };
            let b0 = if b < p { b } else { b - 1 };
            assert(order[a] == before[a0] && order[b] == before[b0]);
        } else if a == p {
            let b0 = if b < p { b } else { b - 1 };
            assert(order[b] == before[b0]);
        } else {
            let a0 = if a < p { a } else { a - 1 };
            assert(order[a] == before[a0]);
        }
    }
    assert forall|q: int| 0 <= q < order.len() implies #[trigger] order[q] < i + 1 by {
        if q < p {
            assert(order[q] == before[q]);
        } else if q > p {
            assert(order[q] == before[q - 1]);
        }
    }
    assert forall|q: int| p <= q < before.len() implies bytes_lt(x, keys[#[trigger] before[q] as int]) by {
        if q > p {
            lemma_bytes_lt_trichotomy(keys[before[p] as int], keys[before[q] as int]);
            if keys[before[p] as int] =~= keys[before[q] as int] {
            } else {
                lemma_bytes_lt_transitive(x, keys[before[p] as int], keys[before[q] as int]);
            }
        }
    }
    assert forall|a: int, b: int| 0 <= a < b < order.len() implies !bytes_lt(
        keys[#[trigger] order[b] as int],
        keys[#[trigger] order[a] as int],
    ) by {
        if b < p {
            assert(order[a] == before[a] && order[b] == before[b]);
        } else if b == p {
            assert(order[a] == before[a]);
        } else if a < p {
            assert(order[a] == before[a] && order[b] == before[b - 1]);
        } else if a == p {
            assert(order[b] == before[b - 1]);
            lemma_bytes_lt_trichotomy(x, keys[before[b - 1] as int]);
        } else {
            assert(order[a] == before[a - 1] && order[b] == before[b - 1]);
        }
    }
    assert forall|a: int, b: int|
        0 <= a < b < order.len() && keys[#[trigger] order[a] as int] == keys[#[trigger] order[b] as int]
            implies order[a] < order[b] by {
        if b < p {
            assert(order[a] == before[a] && order[b] == before[b]);
        } else if b == p {
            assert(order[a] == before[a]);
        } else if a < p {
            assert(order[a] == before[a] && order[b] == before[b - 1]);
        } else if a == p {
            assert(order[b] == before[b - 1]);
            lemma_bytes_lt_trichotomy(x, keys[before[b - 1] as int]);
        } else {
            assert(order[a] == before[a - 1] && order[b] == before[b - 1]);
        }
    }
}

/// The positions of `keys`, stably sorted by key.
pub fn stable_order(keys: &Vec<Vec<u8>>) -> (order: Vec<usize>)
    ensures
        stably_sorted(keys@.map_values(|k: Vec<u8>| k@), order@),
{
    let ghost ks = keys@.map_values(|k: Vec<u8>| k@);
    let mut order: Vec<usize> = Vec::new();
    let mut i: usize = 0;
    while i < keys.len()
        invariant
            i <= keys@.len(),
            ks == keys@.map_values(|k: Vec<u8>| k@),
            order@.len() == i,
            order@.no_duplicates(),
            forall|q: int| 0 <= q < order@.len() ==> #[trigger] order@[q] < i,
            forall|p: int, q: int| 0 <= p < q < order@.len() ==> !bytes_lt(
                ks[#[trigger] order@[q] as int],
                ks[#[trigger] order@[p] as int],
            ),
            forall|p: int, q: int|
                0 <= p < q < order@.len() && ks[#[trigger] order@[p] as int] == ks[#[trigger] order@[q] as int]
                    ==> order@[p] < order@[q],
        decreases keys.len() - i,
    {
        let mut p: usize = 0;
        while p < order.len() && compare_bytes(keys[i].as_slice(), keys[order[p]].as_slice()) >= 0
            invariant
                p <= order@.len(),
                i < keys@.len(),
                ks == keys@.map_values(|k: Vec<u8>| k@),
                forall|q: int| 0 <= q < order@.len() ==> #[trigger] order@[q] < i,
                forall|q: int| 0 <= q < p ==> !bytes_lt(ks[i as int], ks[#[trigger] order@[q] as int]),
            decreases order.len() - p,
        {
            proof {
                assert(ks[i as int] == keys@[i as int]@);
                assert(ks[order@[p as int] as int] == keys@[order@[p as int] as int]@);
            }
            p = p + 1;
        }
        proof {
            if p < order@.len() {
                assert(ks[i as int] == keys@[i as int]@);
                assert(ks[order@[p as int] as int] == keys@[order@[p as int] as int]@);
            }
        }
        let ghost before = order@;
        order.insert(p, i);
        proof {
            lemma_stable_insert(ks, before, p as int, i);
        }
        i = i + 1;
    }
    order
}

/// The map the entries stand for: each key to the item stored under it.
pub open spec fn entries_map<T>(list: Seq<(Vec<u8>, T)>) -> Map<Seq<u8>, T> {
    Map::new(|k: Seq<u8>| has_key(list, k), |k: Seq<u8>| list[key_position(list, k)].1)
}

/// A position whose entry has this key, where there is one.
pub open spec fn key_position<T>(list: Seq<(Vec<u8>, T)>, k: Seq<u8>) -> int {
    choose|e: int| 0 <= e < list.len() && (#[trigger] list[e]).0@ == k
}

/// In ordered entries a key names one position.
pub proof fn lemma_sorted_key_unique<T>(list: Seq<(Vec<u8>, T)>, a: int, b: int)
    requires
        keys_sorted(list),
        0 <= a < list.len(),
        0 <= b < list.len(),
        list[a].0@ == list[b].0@,
    ensures
        a == b,
{
    lemma_bytes_lt_trichotomy(list[a].0@, list[b].0@);
}

/// The item stored at a position is the map's item for its key.
pub proof fn lemma_entries_at<T>(list: Seq<(Vec<u8>, T)>, e: int)
    requires
        keys_sorted(list),
        0 <= e < list.len(),
    ensures
        entries_map(list).contains_key(list[e].0@),
        entries_map(list)[list[e].0@] == list[e].1,
{
    let k = list[e].0@;
    assert(has_key(list, k));
    let c = key_position(list, k);
    lemma_sorted_key_unique(list, c, e);
}

/// Inserting an entry under a new key adds that key to the map.
pub proof fn lemma_entries_insert<T>(before: Seq<(Vec<u8>, T)>, p: int, key: Vec<u8>, item: T)
    requires
        0 <= p <= before.len(),
        keys_sorted(before),
        keys_sorted(before.insert(p, (key, item))),
        !has_key(before, key@),
    ensures
        entries_map(before.insert(p, (key, item))) == entries_map(before).insert(key@, item),
{
    let after = before.insert(p, (key, item));
    let m = entries_map(before).insert(key@, item);
    assert forall|k: Seq<u8>| entries_map(after).contains_key(k) <==> m.contains_key(k) by {
        if has_key(after, k) {
            let e = choose|e: int| 0 <= e < after.len() && (#[trigger] after[e]).0@ == k;
            if e < p {
                assert(after[e] == before[e]);
            } else if e > p {
                assert(after[e] == before[e - 1]);
            }
        }
        if has_key(before, k) {
            let e = choose|e: int| 0 <= e < before.len() && (#[trigger] before[e]).0@ == k;
            if e < p {
                assert(after[e] == before[e]);
            } else {
                assert(after[e + 1] == before[e]);
            }
        }
        if k == key@ {
            assert(after[p].0@ == k);
        }
    }
    assert forall|k: Seq<u8>| #[trigger] entries_map(after).contains_key(k) implies entries_map(after)[k] == m[k] by {
        let e = choose|e: int| 0 <= e < after.len() && (#[trigger] after[e]).0@ == k;
        lemma_entries_at(after, e);
        if e < p {
            assert(after[e] == before[e]);
            lemma_entries_at(before, e);
        } else if e > p {
            assert(after[e] == before[e - 1]);
            lemma_entries_at(before, e - 1);
        }
    }
    assert(entries_map(after) =~= m);
}

/// Replacing the item of an entry changes the map at that key alone.
pub proof fn lemma_entries_update<T>(before: Seq<(Vec<u8>, T)>, p: int, key: Vec<u8>, item: T)
    requires
        0 <= p < before.len(),
        keys_sorted(before),
        before[p].0@ == key@,
    ensures
        keys_sorted(before.update(p, (key, item))),
        entries_map(before.update(p, (key, item))) == entries_map(before).insert(key@, item),
{
    let after = before.update(p, (key, item));
    assert forall|a: int, b: int| 0 <= a < b < after.len() implies bytes_lt(#[trigger] after[a].0@, #[trigger] after[b].0@) by {
        assert(after[a].0@ == before[a].0@);
        assert(after[b].0@ == before[b].0@);
    }
    let m = entries_map(before).insert(key@, item);
    assert forall|k: Seq<u8>| entries_map(after).contains_key(k) <==> m.contains_key(k) by {
        if has_key(after, k) {
            let e = choose|e: int| 0 <= e < after.len() && (#[trigger] after[e]).0@ == k;
            assert(before[e].0@ == k);
        }
        if has_key(before, k) {
            let e = choose|e: int| 0 <= e < before.len() && (#[trigger] before[e]).0@ == k;
            assert(after[e].0@ == k);
        }
        if k == key@ {
            assert(after[p].0@ == k);
        }
    }
    assert forall|k: Seq<u8>| #[trigger] entries_map(after).contains_key(k) implies entries_map(after)[k] == m[k] by {
        let e = choose|e: int| 0 <= e < after.len() && (#[trigger] after[e]).0@ == k;
        lemma_entries_at(after, e);
        if e != p {
            assert(after[e] == before[e]);
            lemma_entries_at(before, e);
            assert(before[e].0@ != key@) by {
                if before[e].0@ == key@ {
                    lemma_sorted_key_unique(before, e, p);
                }
            }
        }
    }
    assert(entries_map(after) =~= m);
}

} // verus!
