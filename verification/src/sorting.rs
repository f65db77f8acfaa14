//! Putting rows in order by a key, keeping rows with equal keys in the order
//! they came in.
use vstd::prelude::*;

verus! {

/// Position `a` comes before position `b` when its key is smaller, or when
/// the keys are equal and it came first.
pub open spec fn goes_before(keys: Seq<i128>, a: int, b: int) -> bool {
    keys[a] < keys[b] || (keys[a] == keys[b] && a < b)
}

/// `order` lists each position of `keys` once, in the order of their keys,
/// equal keys in the order the positions came in.
pub open spec fn is_stable_order(keys: Seq<i128>, order: Seq<usize>) -> bool {
    &&& order.len() == keys.len()
    &&& forall|i: int| 0 <= i < order.len() ==> #[trigger] order[i] < keys.len()
    &&& forall|i: int, j: int|
        0 <= i < j < order.len() ==> goes_before(keys, order[i] as int, order[j] as int)
}

/// The positions of `keys`, in the order of their keys; equal keys keep the
/// order they came in.
pub fn stable_order(keys: &Vec<i128>) -> (order: Vec<usize>)
    ensures
        is_stable_order(keys@, order@),
{
    let mut order: Vec<usize> = Vec::new();
    let mut k: usize = 0;
    while k < keys.len()
        invariant
            k <= keys@.len(),
            order@.len() == k,
            forall|i: int| 0 <= i < order@.len() ==> #[trigger] order@[i] < k,
            forall|i: int, j: int|
                0 <= i < j < order@.len() ==> goes_before(
                    keys@,
                    order@[i] as int,
                    order@[j] as int,
                ),
        decreases keys@.len() - k,
    {
        let key = keys[k];
        let mut q: usize = order.len();
        while q > 0 && keys[order[q - 1]] > key
            invariant
                q <= order@.len(),
                k < keys@.len(),
                key == keys@[k as int],
                forall|i: int| 0 <= i < order@.len() ==> #[trigger] order@[i] < k,
                forall|i: int| q <= i < order@.len() ==> keys@[#[trigger] order@[i] as int] > key,
            decreases q,
        {
            q = q - 1;
        }
        proof {
            if q > 0 {
                assert(keys@[order@[q - 1] as int] <= key);
            }
        }
        let ghost before = order@;
        order.insert(q, k);
        proof {
            assert forall|i: int, j: int| 0 <= i < j < order@.len() implies goes_before(
                keys@,
                order@[i] as int,
                order@[j] as int,
            ) by {
                if j < q {
                    assert(order@[i] == before[i] && order@[j] == before[j]);
                } else if j == q {
                    assert(order@[i] == before[i]);
                    if i < q - 1 {
                        assert(goes_before(keys@, before[i] as int, before[q - 1] as int));
                    }
                } else if i == q {
                    assert(order@[j] == before[j - 1]);
                } else if i < q {
                    assert(order@[i] == before[i] && order@[j] == before[j - 1]);
                } else {
                    assert(order@[i] == before[i - 1] && order@[j] == before[j - 1]);
                }
            }
            assert forall|i: int| 0 <= i < order@.len() implies #[trigger] order@[i] < k + 1 by {
                if i < q {
                    assert(order@[i] == before[i]);
                } else if i > q {
                    assert(order@[i] == before[i - 1]);
                }
            }
        }
        k = k + 1;
    }
    proof {
        assert forall|i: int| 0 <= i < order@.len() implies #[trigger] order@[i] < keys@.len() by {}
    }
    order
}

/// Text `a` sorts before text `b`: at the first place where they differ, the
/// character of `a` has the smaller code point, or `a` is a proper prefix of
/// `b` (the order of Rust's `str`).
pub open spec fn text_lt(a: Seq<char>, b: Seq<char>) -> bool
    decreases a.len(),
{
    if a.len() == 0 {
        b.len() > 0
    } else if b.len() == 0 {
        false
    } else if a[0] != b[0] {
        (a[0] as int) < (b[0] as int)
    } else {
        text_lt(a.drop_first(), b.drop_first())
    }
}

/// No text sorts before itself, and of two different texts one sorts first.
pub proof fn lemma_text_lt_total(a: Seq<char>, b: Seq<char>)
    ensures
        !text_lt(a, a),
        a != b ==> text_lt(a, b) || text_lt(b, a),
        !(text_lt(a, b) && text_lt(b, a)),
    decreases a.len(),
{
    if a.len() > 0 {
        lemma_text_lt_total(a.drop_first(), a.drop_first());
    }
    if a.len() > 0 && b.len() > 0 && a[0] == b[0] {
        lemma_text_lt_total(a.drop_first(), b.drop_first());
        if a != b {
            assert(a.drop_first() != b.drop_first()) by {
                if a.drop_first() == b.drop_first() {
                    assert(a =~= seq![a[0]] + a.drop_first());
                    assert(b =~= seq![b[0]] + b.drop_first());
                }
            }
        }
    }
    if a.len() > 0 && b.len() > 0 && a[0] != b[0] {
        assert((a[0] as int) != (b[0] as int));
    }
    if a.len() == 0 && b.len() == 0 {
        assert(a =~= b);
    }
}

/// Sorting before is transitive.
pub proof fn lemma_text_lt_transitive(a: Seq<char>, b: Seq<char>, c: Seq<char>)
    requires
        text_lt(a, b),
        text_lt(b, c),
    ensures
        text_lt(a, c),
    decreases a.len(),
{
    if a.len() > 0 && b.len() > 0 && c.len() > 0 && a[0] == b[0] && b[0] == c[0] {
        lemma_text_lt_transitive(a.drop_first(), b.drop_first(), c.drop_first());
    }
}

/// Whether `a` sorts before `b`.
pub fn text_less(a: &str, b: &str) -> (r: bool)
    ensures
        r == text_lt(a@, b@),
{
    let x = crate::parse::chars_of(a);
    let y = crate::parse::chars_of(b);
    let mut k: usize = 0;
    assert(x@.skip(0) =~= x@);
    assert(y@.skip(0) =~= y@);
    while k < x.len() && k < y.len() && x[k] == y[k]
        invariant
            k <= x@.len(),
            k <= y@.len(),
            x@ == a@,
            y@ == b@,
            x@.subrange(0, k as int) == y@.subrange(0, k as int),
            text_lt(x@, y@) == text_lt(x@.skip(k as int), y@.skip(k as int)),
        decreases x@.len() - k,
    {
        proof {
            let xs = x@.skip(k as int);
            let ys = y@.skip(k as int);
            assert(xs.drop_first() =~= x@.skip(k + 1));
            assert(ys.drop_first() =~= y@.skip(k + 1));
            assert(xs[0] == ys[0]);
            assert(x@.subrange(0, k + 1) =~= x@.subrange(0, k as int).push(x@[k as int]));
            assert(y@.subrange(0, k + 1) =~= y@.subrange(0, k as int).push(y@[k as int]));
        }
        k = k + 1;
    }
    let xs = Ghost(x@.skip(k as int));
    let ys = Ghost(y@.skip(k as int));
    if k < x.len() && k < y.len() {
        assert(xs@[0] == x@[k as int] && ys@[0] == y@[k as int]);
        x[k] < y[k]
    } else {
        k < y.len()
    }
}

/// Position `a` comes before position `b` when its text sorts first, or
/// when the texts are equal and it came first.
pub open spec fn text_goes_before(keys: Seq<Seq<char>>, a: int, b: int) -> bool {
    text_lt(keys[a], keys[b]) || (keys[a] == keys[b] && a < b)
}

/// `order` lists each position of `keys` once, in the order of their texts,
/// equal texts in the order the positions came in.
pub open spec fn is_stable_text_order(keys: Seq<Seq<char>>, order: Seq<usize>) -> bool {
    &&& order.len() == keys.len()
    &&& forall|i: int| 0 <= i < order.len() ==> #[trigger] order[i] < keys.len()
    &&& forall|i: int, j: int|
        0 <= i < j < order.len() ==> text_goes_before(keys, order[i] as int, order[j] as int)
}

/// The texts of a list.
pub open spec fn texts(v: Seq<String>) -> Seq<Seq<char>> {
    v.map_values(|s: String| s@)
}

/// The positions of `keys`, in the order of their texts; equal texts keep
/// the order they came in.
pub fn stable_text_order(keys: &Vec<String>) -> (order: Vec<usize>)
    ensures
        is_stable_text_order(texts(keys@), order@),
{
    let ghost ks = texts(keys@);
    let mut order: Vec<usize> = Vec::new();
    let mut k: usize = 0;
    while k < keys.len()
        invariant
            k <= keys@.len(),
            ks == texts(keys@),
            order@.len() == k,
            forall|i: int| 0 <= i < order@.len() ==> #[trigger] order@[i] < k,
            forall|i: int, j: int|
                0 <= i < j < order@.len() ==> text_goes_before(ks, order@[i] as int, order@[j] as int),
        decreases keys@.len() - k,
    {
        let key = keys[k].as_str();
        let mut q: usize = order.len();
        while q > 0 && text_less(key, keys[order[q - 1]].as_str())
            invariant
                q <= order@.len(),
                k < keys@.len(),
                ks == texts(keys@),
                key@ == ks[k as int],
                forall|i: int| 0 <= i < order@.len() ==> #[trigger] order@[i] < k,
                forall|i: int| q <= i < order@.len() ==> text_lt(ks[k as int], ks[#[trigger] order@[i] as int]),
            decreases q,
        {
            q = q - 1;
        }
        proof {
            if q > 0 {
                let last = ks[order@[q - 1] as int];
                lemma_text_lt_total(last, ks[k as int]);
                assert forall|i: int| 0 <= i < q implies !text_lt(ks[k as int], ks[#[trigger] order@[i] as int]) by {
                    if i < q - 1 && text_lt(ks[k as int], ks[order@[i] as int]) {
                        assert(text_goes_before(ks, order@[i] as int, order@[q - 1] as int));
                        lemma_text_lt_total(ks[order@[i] as int], ks[k as int]);
                        if text_lt(ks[order@[i] as int], last) {
                            if text_lt(last, ks[k as int]) {
                                lemma_text_lt_transitive(ks[order@[i] as int], last, ks[k as int]);
                            }
                            lemma_text_lt_total(ks[order@[i] as int], last);
                        }
                    }
                }
            }
        }
        let ghost before = order@;
        order.insert(q, k);
        proof {
            assert forall|i: int, j: int| 0 <= i < j < order@.len() implies text_goes_before(
                ks,
                order@[i] as int,
                order@[j] as int,
            ) by {
                if j < q {
                    assert(order@[i] == before[i] && order@[j] == before[j]);
                } else if j == q {
                    assert(order@[i] == before[i]);
                    assert(!text_lt(ks[k as int], ks[before[i] as int]));
                    lemma_text_lt_total(ks[k as int], ks[before[i] as int]);
                } else if i == q {
                    assert(order@[j] == before[j - 1]);
                } else if i < q {
                    assert(order@[i] == before[i] && order@[j] == before[j - 1]);
                } else {
                    assert(order@[i] == before[i - 1] && order@[j] == before[j - 1]);
                }
            }
            assert forall|i: int| 0 <= i < order@.len() implies #[trigger] order@[i] < k + 1 by {
                if i < q {
                    assert(order@[i] == before[i]);
                } else if i > q {
                    assert(order@[i] == before[i - 1]);
                }
            }
        }
        k = k + 1;
    }
    order
}

} // verus!
