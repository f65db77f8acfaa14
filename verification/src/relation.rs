//! Binary relations between ids, kept as ordered sets of pairs.
use std::collections::{BTreeMap, BTreeSet};
use vstd::prelude::*;
use vstd::std_specs::cmp::OrdSpec;
use vstd::std_specs::iter::IteratorSpec;

verus! {

/// `(a, b)` comes strictly before `(c, d)` in lexicographic order.
pub open spec fn pair_lt(x: (usize, usize), y: (usize, usize)) -> bool {
    x.0 < y.0 || (x.0 == y.0 && x.1 < y.1)
}

/// `v` lists the pairs of `s` once each, in lexicographic order.
pub open spec fn lists_pairs_in_order(v: Seq<(usize, usize)>, s: Set<(usize, usize)>) -> bool {
    &&& forall|i: int, j: int| 0 <= i < j < v.len() ==> pair_lt(v[i], v[j])
    &&& forall|i: int| 0 <= i < v.len() ==> s.contains(#[trigger] v[i])
    &&& forall|p: (usize, usize)| s.contains(p) ==> v.contains(p)
}

/// Two items of a sequence that the ordered-set iterator calls increasing are
/// in strictly increasing order.
proof fn lemma_increasing_at<K: Ord>(s: Seq<K>, i: int, j: int)
    requires
        vstd::laws_cmp::obeys_cmp::<K>(),
        vstd::std_specs::btree::increasing_seq(s),
        0 <= i < j < s.len(),
    ensures
        s[i].cmp_spec(&s[j]) is Less,
{
    broadcast use vstd::std_specs::btree::group_btree_axioms;
}

/// For pairs of ids, the iterator's increasing order is lexicographic order.
proof fn lemma_increasing_pairs(s: Seq<&(usize, usize)>, i: int, j: int)
    requires
        vstd::std_specs::btree::increasing_seq(s),
        0 <= i < j < s.len(),
    ensures
        pair_lt(*s[i], *s[j]),
{
    broadcast use vstd::laws_cmp::group_laws_cmp;
    assert(vstd::laws_cmp::obeys_cmp::<usize>());
    assert(vstd::laws_cmp::obeys_cmp::<(usize, usize)>());
    assert(vstd::laws_cmp::obeys_cmp::<&(usize, usize)>());
    lemma_increasing_at(s, i, j);
}

/// The pairs of a relation, in lexicographic order.
pub fn pairs_in_order(set: &BTreeSet<(usize, usize)>) -> (v: Vec<(usize, usize)>)
    ensures
        lists_pairs_in_order(v@, set@),
{
    broadcast use vstd::std_specs::btree::group_btree_axioms;
    proof {
        lemma_ids_ordered();
    }
    let mut v: Vec<(usize, usize)> = Vec::new();
    let ghost s = vstd::std_specs::btree::spec_btree_keys_iter(set).remaining();
    for x in it: set.iter()
        invariant
            it.seq() == s,
            v@.len() == it.index(),
            forall|i: int| 0 <= i < it.index() ==> v@[i] == *it.seq()[i],
    {
        v.push(*x);
    }
    assert(s.unref().to_set() == set@);
    assert(v@ =~= s.unref());
    assert forall|i: int, j: int| 0 <= i < j < v@.len() implies pair_lt(v@[i], v@[j]) by {
        lemma_increasing_pairs(s, i, j);
    }
    assert forall|i: int| 0 <= i < v@.len() implies set@.contains(#[trigger] v@[i]) by {
        assert(s.unref().to_set().contains(v@[i]));
    }
    assert forall|p: (usize, usize)| set@.contains(p) implies v@.contains(p) by {
        assert(s.unref().to_set().contains(p));
    }
    v
}


/// `v` lists the numbers of `s` once each, in increasing order.
pub open spec fn lists_in_order(v: Seq<usize>, s: Set<usize>) -> bool {
    &&& forall|i: int, j: int| 0 <= i < j < v.len() ==> v[i] < v[j]
    &&& forall|i: int| 0 <= i < v.len() ==> s.contains(#[trigger] v[i])
    &&& forall|x: usize| s.contains(x) ==> v.contains(x)
}

/// A list of increasing numbers is as long as the set it lists.
pub proof fn lemma_listed_len(v: Seq<usize>, s: Set<usize>)
    requires
        lists_in_order(v, s),
    ensures
        s.finite(),
        s.len() == v.len(),
{
    assert(v.no_duplicates()) by {
        assert forall|i: int, j: int| 0 <= i < v.len() && 0 <= j < v.len() && i != j implies v[i]
            != v[j] by {
            if i < j {
                assert(v[i] < v[j]);
            } else {
                assert(v[j] < v[i]);
            }
        }
    }
    assert(v.to_set() =~= s);
    v.unique_seq_to_set();
}

/// The right-hand sides related to `x`.
pub open spec fn rights_of(s: Set<(usize, usize)>, x: usize) -> Set<usize> {
    Set::new(|y: usize| s.contains((x, y)))
}

/// The left-hand sides related to `y`.
pub open spec fn lefts_of(s: Set<(usize, usize)>, y: usize) -> Set<usize> {
    Set::new(|x: usize| s.contains((x, y)))
}

/// The keys of `m` mapped to `v`.
pub open spec fn keys_with_value(m: Map<usize, usize>, v: usize) -> Set<usize> {
    Set::new(|k: usize| m.contains_key(k) && m[k] == v)
}

/// The right-hand sides related to `x`, in increasing order.
pub fn rights_in_order(set: &BTreeSet<(usize, usize)>, x: usize) -> (v: Vec<usize>)
    ensures
        lists_in_order(v@, rights_of(set@, x)),
{
    let all = pairs_in_order(set);
    let mut v: Vec<usize> = Vec::new();
    let mut k: usize = 0;
    while k < all.len()
        invariant
            k <= all@.len(),
            lists_pairs_in_order(all@, set@),
            forall|i: int, j: int| 0 <= i < j < v@.len() ==> v@[i] < v@[j],
            forall|i: int| 0 <= i < v@.len() ==> set@.contains((x, #[trigger] v@[i])),
            forall|i: int|
                0 <= i < v@.len() ==> exists|t: int| 0 <= t < k && all@[t] == (x, #[trigger] v@[i]),
            forall|t: int| 0 <= t < k && (#[trigger] all@[t]).0 == x ==> v@.contains(all@[t].1),
        decreases all@.len() - k,
    {
        let ghost before = v@;
        let (a, b) = all[k];
        if a == x {
            proof {
                assert forall|i: int| 0 <= i < before.len() implies before[i] < b by {
                    let t = choose|t: int| 0 <= t < k && all@[t] == (x, before[i]);
                    assert(pair_lt(all@[t], all@[k as int]));
                }
            }
            v.push(b);
            proof {
                assert(v@[v@.len() - 1] == b);
                assert forall|i: int| 0 <= i < v@.len() implies exists|t: int|
                    0 <= t < k + 1 && all@[t] == (x, #[trigger] v@[i]) by {
                    if i < before.len() {
                        let t = choose|t: int| 0 <= t < k && all@[t] == (x, before[i]);
                        assert(all@[t] == (x, v@[i]));
                    } else {
                        assert(all@[k as int] == (x, v@[i]));
                    }
                }
                assert forall|t: int| 0 <= t < k + 1 && (#[trigger] all@[t]).0 == x implies v@.contains(
                    all@[t].1,
                ) by {
                    if t < k {
                        assert(before.contains(all@[t].1));
                        let i = choose|i: int| 0 <= i < before.len() && before[i] == all@[t].1;
                        assert(v@[i] == before[i]);
                    } else {
                        assert(v@[v@.len() - 1] == all@[t].1);
                    }
                }
            }
        }
        k = k + 1;
    }
    assert forall|y: usize| rights_of(set@, x).contains(y) implies v@.contains(y) by {
        assert(all@.contains((x, y)));
        let t = choose|t: int| 0 <= t < all@.len() && all@[t] == (x, y);
        assert(all@[t].0 == x);
    }
    v
}

/// The left-hand sides related to `y`, in increasing order.
pub fn lefts_in_order(set: &BTreeSet<(usize, usize)>, y: usize) -> (v: Vec<usize>)
    ensures
        lists_in_order(v@, lefts_of(set@, y)),
{
    let all = pairs_in_order(set);
    let mut v: Vec<usize> = Vec::new();
    let mut k: usize = 0;
    while k < all.len()
        invariant
            k <= all@.len(),
            lists_pairs_in_order(all@, set@),
            forall|i: int, j: int| 0 <= i < j < v@.len() ==> v@[i] < v@[j],
            forall|i: int| 0 <= i < v@.len() ==> set@.contains((#[trigger] v@[i], y)),
            forall|i: int|
                0 <= i < v@.len() ==> exists|t: int| 0 <= t < k && all@[t] == (#[trigger] v@[i], y),
            forall|t: int| 0 <= t < k && (#[trigger] all@[t]).1 == y ==> v@.contains(all@[t].0),
        decreases all@.len() - k,
    {
        let ghost before = v@;
        let (a, b) = all[k];
        if b == y {
            proof {
                assert forall|i: int| 0 <= i < before.len() implies before[i] < a by {
                    let t = choose|t: int| 0 <= t < k && all@[t] == (before[i], y);
                    assert(pair_lt(all@[t], all@[k as int]));
                }
            }
            v.push(a);
            proof {
                assert(v@[v@.len() - 1] == a);
                assert forall|i: int| 0 <= i < v@.len() implies exists|t: int|
                    0 <= t < k + 1 && all@[t] == (#[trigger] v@[i], y) by {
                    if i < before.len() {
                        let t = choose|t: int| 0 <= t < k && all@[t] == (before[i], y);
                        assert(all@[t] == (v@[i], y));
                    } else {
                        assert(all@[k as int] == (v@[i], y));
                    }
                }
                assert forall|t: int| 0 <= t < k + 1 && (#[trigger] all@[t]).1 == y implies v@.contains(
                    all@[t].0,
                ) by {
                    if t < k {
                        assert(before.contains(all@[t].0));
                        let i = choose|i: int| 0 <= i < before.len() && before[i] == all@[t].0;
                        assert(v@[i] == before[i]);
                    } else {
                        assert(v@[v@.len() - 1] == all@[t].0);
                    }
                }
            }
        }
        k = k + 1;
    }
    assert forall|x: usize| lefts_of(set@, y).contains(x) implies v@.contains(x) by {
        assert(all@.contains((x, y)));
        let t = choose|t: int| 0 <= t < all@.len() && all@[t] == (x, y);
        assert(all@[t].1 == y);
    }
    v
}


/// The side of a pair that an id is looked for on.
pub open spec fn side(p: (usize, usize), on_left: bool) -> usize {
    if on_left {
        p.0
    } else {
        p.1
    }
}

/// The pairs of `s` that do not have `id` on the given side.
pub open spec fn pairs_without(s: Set<(usize, usize)>, on_left: bool, id: usize) -> Set<
    (usize, usize),
> {
    Set::new(|p: (usize, usize)| s.contains(p) && side(p, on_left) != id)
}

/// The pairs of `set` that do not have `id` on the given side.
pub fn without(set: &BTreeSet<(usize, usize)>, on_left: bool, id: usize) -> (r: BTreeSet<
    (usize, usize),
>)
    ensures
        r@ == pairs_without(set@, on_left, id),
{
    broadcast use vstd::std_specs::btree::group_btree_axioms;
    proof {
        lemma_ids_ordered();
    }
    let all = pairs_in_order(set);
    let mut r: BTreeSet<(usize, usize)> = BTreeSet::new();
    let mut k: usize = 0;
    while k < all.len()
        invariant
            k <= all@.len(),
            lists_pairs_in_order(all@, set@),
            forall|p: (usize, usize)|
                #![trigger r@.contains(p)]
                r@.contains(p) <==> (side(p, on_left) != id && exists|t: int|
                    0 <= t < k && #[trigger] all@[t] == p),
        decreases all@.len() - k,
    {
        let ghost before = r@;
        let p = all[k];
        let keep = if on_left {
            p.0 != id
        } else {
            p.1 != id
        };
        if keep {
            r.insert(p);
        }
        assert forall|q: (usize, usize)|
            #![trigger r@.contains(q)]
            r@.contains(q) <==> (side(q, on_left) != id && exists|t: int|
                0 <= t < k + 1 && #[trigger] all@[t] == q) by {
            if q == p {
                assert(all@[k as int] == q);
            } else {
                if exists|t: int| 0 <= t < k + 1 && #[trigger] all@[t] == q {
                    let t = choose|t: int| 0 <= t < k + 1 && #[trigger] all@[t] == q;
                    assert(t < k);
                }
            }
        }
        k = k + 1;
    }
    assert(r@ =~= pairs_without(set@, on_left, id)) by {
        assert forall|q: (usize, usize)| set@.contains(q) implies exists|t: int|
            0 <= t < all@.len() && #[trigger] all@[t] == q by {
            assert(all@.contains(q));
        }
    }
    r
}

/// Ids and pairs of ids have a total order that the ordered collections can rely on.
pub proof fn lemma_ids_ordered()
    ensures
        vstd::laws_cmp::obeys_cmp::<usize>(),
        vstd::laws_cmp::obeys_cmp::<(usize, usize)>(),
{
    broadcast use vstd::laws_cmp::group_laws_cmp;
    assert(vstd::laws_cmp::obeys_cmp::<usize>());
    assert(vstd::laws_cmp::obeys_cmp::<(usize, usize)>());
}

/// For ids, the iterator's increasing order is numeric order.
proof fn lemma_increasing_ids(s: Seq<&usize>, i: int, j: int)
    requires
        vstd::std_specs::btree::increasing_seq(s),
        0 <= i < j < s.len(),
    ensures
        *s[i] < *s[j],
{
    broadcast use vstd::laws_cmp::group_laws_cmp;
    assert(vstd::laws_cmp::obeys_cmp::<usize>());
    assert(vstd::laws_cmp::obeys_cmp::<&usize>());
    lemma_increasing_at(s, i, j);
}

/// The keys of `map`, in increasing order.
pub fn keys_in_order<V>(map: &BTreeMap<usize, V>) -> (v: Vec<usize>)
    ensures
        lists_in_order(v@, map@.dom()),
{
    broadcast use vstd::std_specs::btree::group_btree_axioms;
    proof {
        lemma_ids_ordered();
    }
    let mut v: Vec<usize> = Vec::new();
    let ghost s = vstd::std_specs::btree::spec_keys_iter(map).remaining();
    for x in it: map.keys()
        invariant
            it.seq() == s,
            v@.len() == it.index(),
            forall|i: int| 0 <= i < it.index() ==> v@[i] == *it.seq()[i],
    {
        v.push(*x);
    }
    assert(s.unref().to_set() == map@.dom());
    assert(v@ =~= s.unref());
    assert forall|i: int, j: int| 0 <= i < j < v@.len() implies v@[i] < v@[j] by {
        lemma_increasing_ids(s, i, j);
    }
    assert forall|i: int| 0 <= i < v@.len() implies map@.dom().contains(#[trigger] v@[i]) by {
        assert(s.unref().to_set().contains(v@[i]));
    }
    assert forall|x: usize| map@.dom().contains(x) implies v@.contains(x) by {
        assert(s.unref().to_set().contains(x));
    }
    v
}


/// The keys of `map` that map to `value`, in increasing order.
pub fn keys_with_value_in_order(map: &BTreeMap<usize, usize>, value: usize) -> (v: Vec<usize>)
    ensures
        lists_in_order(v@, keys_with_value(map@, value)),
{
    broadcast use vstd::std_specs::btree::group_btree_axioms;
    proof {
        lemma_ids_ordered();
    }
    let keys = keys_in_order(map);
    let mut v: Vec<usize> = Vec::new();
    let mut k: usize = 0;
    while k < keys.len()
        invariant
            k <= keys@.len(),
            lists_in_order(keys@, map@.dom()),
            forall|i: int, j: int| 0 <= i < j < v@.len() ==> v@[i] < v@[j],
            forall|i: int|
                0 <= i < v@.len() ==> keys_with_value(map@, value).contains(#[trigger] v@[i]),
            forall|i: int|
                0 <= i < v@.len() ==> exists|t: int| 0 <= t < k && keys@[t] == #[trigger] v@[i],
            forall|t: int|
                0 <= t < k && keys_with_value(map@, value).contains(#[trigger] keys@[t])
                    ==> v@.contains(keys@[t]),
        decreases keys@.len() - k,
    {
        let ghost before = v@;
        let key = keys[k];
        match map.get(&key) {
            Some(found) => {
                if *found == value {
                    proof {
                        assert forall|i: int| 0 <= i < before.len() implies before[i] < key by {
                            let t = choose|t: int| 0 <= t < k && keys@[t] == before[i];
                        }
                    }
                    v.push(key);
                    proof {
                        assert(v@[v@.len() - 1] == key);
                        assert forall|i: int| 0 <= i < v@.len() implies exists|t: int|
                            0 <= t < k + 1 && keys@[t] == #[trigger] v@[i] by {
                            if i < before.len() {
                                let t = choose|t: int| 0 <= t < k && keys@[t] == before[i];
                                assert(keys@[t] == v@[i]);
                            } else {
                                assert(keys@[k as int] == v@[i]);
                            }
                        }
                        assert forall|t: int|
                            0 <= t < k + 1 && keys_with_value(map@, value).contains(
                                #[trigger] keys@[t],
                            ) implies v@.contains(keys@[t]) by {
                            if t < k {
                                let i = choose|i: int| 0 <= i < before.len() && before[i] == keys@[t];
                                assert(v@[i] == before[i]);
                            } else {
                                assert(v@[v@.len() - 1] == keys@[t]);
                            }
                        }
                    }
                }
            },
            None => {},
        }
        k = k + 1;
    }
    assert forall|x: usize| keys_with_value(map@, value).contains(x) implies v@.contains(x) by {
        assert(keys@.contains(x));
        let t = choose|t: int| 0 <= t < keys@.len() && keys@[t] == x;
        assert(keys_with_value(map@, value).contains(keys@[t]));
    }
    v
}

/// `map` without the entries that map to `value`.
pub fn map_without_value(map: &BTreeMap<usize, usize>, value: usize) -> (r: BTreeMap<usize, usize>)
    ensures
        r@ == map@.restrict(map@.dom().difference(keys_with_value(map@, value))),
{
    broadcast use vstd::std_specs::btree::group_btree_axioms;
    proof {
        lemma_ids_ordered();
    }
    let keys = keys_in_order(map);
    let mut r: BTreeMap<usize, usize> = BTreeMap::new();
    let mut k: usize = 0;
    while k < keys.len()
        invariant
            k <= keys@.len(),
            lists_in_order(keys@, map@.dom()),
            forall|x: usize|
                #![trigger r@.contains_key(x)]
                r@.contains_key(x) <==> (map@.contains_key(x) && map@[x] != value && exists|t: int|
                    0 <= t < k && #[trigger] keys@[t] == x),
            forall|x: usize| #[trigger] r@.contains_key(x) ==> r@[x] == map@[x],
        decreases keys@.len() - k,
    {
        let key = keys[k];
        match map.get(&key) {
            Some(found) => {
                if *found != value {
                    r.insert(key, *found);
                }
            },
            None => {},
        }
        assert forall|x: usize|
            #![trigger r@.contains_key(x)]
            r@.contains_key(x) <==> (map@.contains_key(x) && map@[x] != value && exists|t: int|
                0 <= t < k + 1 && #[trigger] keys@[t] == x) by {
            if x == key {
                assert(keys@[k as int] == x);
            } else {
                if exists|t: int| 0 <= t < k + 1 && #[trigger] keys@[t] == x {
                    let t = choose|t: int| 0 <= t < k + 1 && #[trigger] keys@[t] == x;
                    assert(t < k);
                }
            }
        }
        k = k + 1;
    }
    assert(r@ =~= map@.restrict(map@.dom().difference(keys_with_value(map@, value)))) by {
        assert forall|x: usize| map@.contains_key(x) implies exists|t: int|
            0 <= t < keys@.len() && #[trigger] keys@[t] == x by {
            assert(keys@.contains(x));
        }
    }
    r
}

/// The numbers of `keys` for which `pred` holds, in the order of `keys`.
pub open spec fn keep_if(keys: Seq<usize>, pred: spec_fn(usize) -> bool) -> Seq<usize>
    decreases keys.len(),
{
    if keys.len() == 0 {
        Seq::empty()
    } else {
        let before = keep_if(keys.drop_last(), pred);
        if pred(keys.last()) {
            before.push(keys.last())
        } else {
            before
        }
    }
}

/// Keeping some numbers of an increasing list gives an increasing list of
/// the kept numbers of its set.
pub proof fn lemma_keep_if_lists(keys: Seq<usize>, s: Set<usize>, pred: spec_fn(usize) -> bool)
    requires
        lists_in_order(keys, s),
    ensures
        lists_in_order(keep_if(keys, pred), s.filter(pred)),
        forall|i: int| 0 <= i < keep_if(keys, pred).len() ==> keys.contains(#[trigger] keep_if(keys, pred)[i]),
    decreases keys.len(),
{
    if keys.len() == 0 {
        assert forall|x: usize| s.filter(pred).contains(x) implies false by {
            assert(keys.contains(x));
        }
    } else {
        let last = keys.last();
        let rest = keys.drop_last();
        let smaller = s.remove(last);
        assert forall|x: usize| smaller.contains(x) implies rest.contains(x) by {
            assert(keys.contains(x));
            let i = choose|i: int| 0 <= i < keys.len() && keys[i] == x;
            assert(i != keys.len() - 1);
            assert(rest[i] == x);
        }
        assert forall|i: int| 0 <= i < rest.len() implies smaller.contains(#[trigger] rest[i]) by {
            assert(keys[i] == rest[i]);
            assert(keys[i] < keys[keys.len() - 1]);
        }
        lemma_keep_if_lists(rest, smaller, pred);
        let b = keep_if(rest, pred);
        assert forall|i: int| 0 <= i < b.len() implies #[trigger] b[i] < last by {
            assert(rest.contains(b[i]));
            let j = choose|j: int| 0 <= j < rest.len() && rest[j] == b[i];
            assert(keys[j] < keys[keys.len() - 1]);
        }
        let r = keep_if(keys, pred);
        assert forall|x: usize| s.filter(pred).contains(x) implies r.contains(x) by {
            if x == last {
                assert(r[r.len() - 1] == x);
            } else {
                assert(smaller.filter(pred).contains(x));
                assert(b.contains(x));
                let i = choose|i: int| 0 <= i < b.len() && b[i] == x;
                assert(r[i] == x);
            }
        }
        assert forall|i: int| 0 <= i < r.len() implies keys.contains(#[trigger] r[i]) by {
            if i < b.len() {
                assert(r[i] == b[i]);
                assert(rest.contains(b[i]));
                let j = choose|j: int| 0 <= j < rest.len() && rest[j] == b[i];
                assert(keys[j] == rest[j]);
            } else {
                assert(keys[keys.len() - 1] == r[i]);
            }
        }
    }
}

} // verus!
