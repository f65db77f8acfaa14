//! What the search screen tells about the pieces found: money spent on them
//! and how many there are.
use crate::db::{indices, DbV2};
use crate::entities::{PieceId, TagId};
use crate::relation::{
    keep_if, lemma_ids_ordered, lemma_keep_if_lists, lemma_listed_len, lists_in_order, rights_of,
};
use crate::sorting::{is_stable_text_order, stable_text_order, texts};
use vstd::prelude::*;

verus! {

/// Money spent on the pieces found, and their number.
pub struct SpendingSummary {
    pub base_spent: i64,
    pub tip_spent: i64,
    pub total_spent: i64,
    pub tip_percentage: i64,
    pub average_price: i64,
    pub average_tip: i64,
    pub piece_count: usize,
    pub blob_count: usize,
}

/// A price, or nothing spent where there is none.
pub open spec fn price_or_zero(p: Option<i64>) -> int {
    match p {
        Some(v) => v as int,
        None => 0,
    }
}

/// The base prices of the pieces `ids`, added up.
pub open spec fn base_sum(db: DbV2, ids: Seq<usize>) -> int
    decreases ids.len(),
{
    if ids.len() == 0 {
        0
    } else {
        base_sum(db, ids.drop_last()) + price_or_zero(db.pieces.rows()[ids.last()].base_price)
    }
}

/// The tips of the pieces `ids`, added up.
pub open spec fn tip_sum(db: DbV2, ids: Seq<usize>) -> int
    decreases ids.len(),
{
    if ids.len() == 0 {
        0
    } else {
        tip_sum(db, ids.drop_last()) + price_or_zero(db.pieces.rows()[ids.last()].tip_price)
    }
}

/// The number of blobs of the pieces `ids`, added up.
pub open spec fn blob_sum(db: DbV2, ids: Seq<usize>) -> int
    decreases ids.len(),
{
    if ids.len() == 0 {
        0
    } else {
        blob_sum(db, ids.drop_last()) + rights_of(db.media@, ids.last()).len()
    }
}

/// The size of a number.
pub open spec fn magnitude(x: int) -> int {
    if x < 0 {
        -x
    } else {
        x
    }
}

/// Integer division rounding toward zero, as Rust divides.
pub open spec fn div_toward_zero(x: int, d: int) -> int {
    if x == 0 || (x < 0) == (d < 0) {
        magnitude(x) / magnitude(d)
    } else {
        -(magnitude(x) / magnitude(d))
    }
}

/// Every running total of the sums fits the integer types they are kept in.
pub open spec fn sums_fit(db: DbV2, ids: Seq<usize>) -> bool {
    &&& forall|k: int|
        0 <= k <= ids.len() ==> i64::MIN <= #[trigger] base_sum(db, ids.take(k)) <= i64::MAX
    &&& forall|k: int|
        0 <= k <= ids.len() ==> i64::MIN <= #[trigger] tip_sum(db, ids.take(k)) <= i64::MAX
    &&& forall|k: int| 0 <= k <= ids.len() ==> #[trigger] blob_sum(db, ids.take(k)) <= usize::MAX
    &&& i64::MIN <= base_sum(db, ids) + tip_sum(db, ids) <= i64::MAX
    &&& i64::MIN <= tip_sum(db, ids) * 100 <= i64::MAX
}

/// The summary of the pieces `ids`, none of them missing from the database.
pub open spec fn summary_of(db: DbV2, ids: Seq<usize>, s: SpendingSummary) -> bool {
    let base = base_sum(db, ids);
    let tip = tip_sum(db, ids);
    let total = base + tip;
    &&& s.base_spent == base
    &&& s.tip_spent == tip
    &&& s.total_spent == total
    &&& s.tip_percentage == if total == 0 || !(i64::MIN <= div_toward_zero(tip * 100, total)
        <= i64::MAX) {
        0
    } else {
        div_toward_zero(tip * 100, total)
    }
    &&& s.average_price == div_toward_zero(base, ids.len() as int)
    &&& s.average_tip == div_toward_zero(tip, ids.len() as int)
    &&& s.piece_count == ids.len()
    &&& s.blob_count == blob_sum(db, ids)
}

/// Rust's division of `x` by a positive `d`.
fn divide(x: i64, d: i64) -> (q: i64)
    requires
        d > 0,
    ensures
        q == div_toward_zero(x as int, d as int),
{
    let q = x.checked_div(d);
    proof {
        if x < 0 {
            assert((x * -1) == -x);
        }
        assert(magnitude(x as int) / (d as int) <= magnitude(x as int)) by (nonlinear_arith)
            requires
                d > 0,
        ;
    }
    q.unwrap()
}

/// Money spent on the pieces found and their number, or `None` when nothing
/// was found.
pub fn summarize(ids: &Vec<PieceId>, db: &DbV2) -> (s: Option<SpendingSummary>)
    requires
        forall|i: int| 0 <= i < ids@.len() ==> db.pieces.rows().contains_key(#[trigger] ids@[i].0),
        sums_fit(*db, indices(ids@)),
        ids@.len() <= i64::MAX,
    ensures
        ids@.len() == 0 <==> s is None,
        s matches Some(s) ==> summary_of(*db, indices(ids@), s),
{
    if ids.len() == 0 {
        return None;
    }
    let ghost keys = indices(ids@);
    let mut base: i64 = 0;
    let mut tip: i64 = 0;
    let mut blobs: usize = 0;
    let mut k: usize = 0;
    while k < ids.len()
        invariant
            k <= ids@.len(),
            keys == indices(ids@),
            forall|i: int| 0 <= i < ids@.len() ==> db.pieces.rows().contains_key(#[trigger] ids@[i].0),
            sums_fit(*db, keys),
            base == base_sum(*db, keys.take(k as int)),
            tip == tip_sum(*db, keys.take(k as int)),
            blobs == blob_sum(*db, keys.take(k as int)),
        decreases ids@.len() - k,
    {
        let id = ids[k];
        let piece = db.pieces.index(id);
        let ghost next = keys.take(k + 1);
        assert(next.drop_last() =~= keys.take(k as int));
        assert(next.last() == id.0);
        assert(i64::MIN <= base_sum(*db, next) <= i64::MAX);
        assert(i64::MIN <= tip_sum(*db, next) <= i64::MAX);
        assert(blob_sum(*db, next) <= usize::MAX);
        let b = match piece.base_price {
            Some(v) => v,
            None => 0,
        };
        let t = match piece.tip_price {
            Some(v) => v,
            None => 0,
        };
        base = base + b;
        tip = tip + t;
        let owned = db.blobs_for_piece(id);
        proof {
            lemma_listed_len(indices(owned@), rights_of(db.media@, id.0));
        }
        blobs = blobs + owned.len();
        k = k + 1;
    }
    assert(keys.take(ids@.len() as int) =~= keys);
    let total = base + tip;
    let percentage = match (tip * 100).checked_div(total) {
        Some(v) => v,
        None => 0,
    };
    proof {
        if total != 0 {
            let x = (tip * 100) as int;
            let d = total as int;
            assert(x * -1 == -x);
            assert(d * -1 == -d);
        }
    }
    let n = ids.len() as i64;
    Some(
        SpendingSummary {
            base_spent: base,
            tip_spent: tip,
            total_spent: total,
            tip_percentage: percentage,
            average_price: divide(base, n),
            average_tip: divide(tip, n),
            piece_count: ids.len(),
            blob_count: blobs,
        },
    )
}

/// How many of the pieces `ids` carry tag `t`.
pub open spec fn carried_by(db: DbV2, ids: Seq<usize>, t: usize) -> nat
    decreases ids.len(),
{
    if ids.len() == 0 {
        0
    } else {
        carried_by(db, ids.drop_last(), t) + if db.piece_tags@.contains((ids.last(), t)) {
            1nat
        } else {
            0nat
        }
    }
}

/// Whether a tag carried `count` times is listed: tags carried once only
/// when `show_single` asks for them.
pub open spec fn listed_count(count: nat, show_single: bool) -> bool {
    count > 1 || (show_single && count > 0)
}

/// `tally` lists, in increasing order of tag id, each tag of the database
/// that is listed for the pieces `ids`, with how many of them carry it.
pub open spec fn is_tally(db: DbV2, ids: Seq<usize>, show_single: bool, tally: Seq<(usize, TagId)>) -> bool {
    &&& lists_in_order(
        tally.map_values(|e: (usize, TagId)| e.1.0),
        Set::new(
            |t: usize|
                db.tags.rows().contains_key(t) && listed_count(carried_by(db, ids, t), show_single),
        ),
    )
    &&& forall|i: int| 0 <= i < tally.len() ==> #[trigger] tally[i].0 == carried_by(db, ids, tally[i].1.0)
}

/// The names of the tags of a tally.
pub open spec fn tally_names(db: DbV2, tally: Seq<(usize, TagId)>) -> Seq<Seq<char>> {
    tally.map_values(|e: (usize, TagId)| db.tags.rows()[e.1.0].name@)
}

/// How many of the pieces `ids` carry tag `t`.
fn count_carriers(db: &DbV2, ids: &Vec<PieceId>, t: TagId) -> (n: usize)
    ensures
        n == carried_by(*db, indices(ids@), t.0),
{
    broadcast use vstd::std_specs::btree::group_btree_axioms;
    proof {
        lemma_ids_ordered();
    }
    let ghost keys = indices(ids@);
    let mut n: usize = 0;
    let mut k: usize = 0;
    while k < ids.len()
        invariant
            k <= ids@.len(),
            keys == indices(ids@),
            n == carried_by(*db, keys.take(k as int), t.0),
            n <= k,
        decreases ids@.len() - k,
    {
        proof {
            lemma_ids_ordered();
        }
        let p = ids[k].0;
        assert(keys.take(k + 1).drop_last() =~= keys.take(k as int));
        assert(keys.take(k + 1).last() == p);
        if db.piece_tags.contains(&(p, t.0)) {
            n = n + 1;
        }
        k = k + 1;
    }
    assert(keys.take(ids@.len() as int) =~= keys);
    n
}

/// Tag `t` of the database is listed for the pieces `ids`.
pub open spec fn wanted(db: DbV2, ids: Seq<usize>, show_single: bool, t: usize) -> bool {
    db.tags.rows().contains_key(t) && listed_count(carried_by(db, ids, t), show_single)
}

/// The tags listed for the pieces `ids`, in increasing order of id, each with
/// how many of the pieces carry it.
fn tally_of(ids: &Vec<PieceId>, db: &DbV2, show_single: bool) -> (tally: Vec<(usize, TagId)>)
    ensures
        is_tally(*db, indices(ids@), show_single, tally@),
{
    let rows = db.tags();
    let ghost keys = rows@.map_values(|e: (TagId, &crate::entities::Tag)| e.0.0);
    let ghost found = indices(ids@);
    let ghost pred = |t: usize| wanted(*db, found, show_single, t);
    let mut tally: Vec<(usize, TagId)> = Vec::new();
    let mut k: usize = 0;
    while k < rows.len()
        invariant
            k <= rows@.len(),
            found == indices(ids@),
            keys == rows@.map_values(|e: (TagId, &crate::entities::Tag)| e.0.0),
            lists_in_order(keys, db.tags.rows().dom()),
            pred == (|t: usize| wanted(*db, found, show_single, t)),
            tally@.map_values(|e: (usize, TagId)| e.1.0) == keep_if(keys.take(k as int), pred),
            forall|i: int| 0 <= i < tally@.len() ==> #[trigger] tally@[i].0 == carried_by(*db, found, tally@[i].1.0),
        decreases rows@.len() - k,
    {
        let id = rows[k].0;
        assert(keys[k as int] == id.0);
        assert(db.tags.rows().contains_key(id.0));
        assert(keys.take(k + 1).drop_last() =~= keys.take(k as int));
        assert(keys.take(k + 1).last() == id.0);
        let n = count_carriers(db, ids, id);
        if n > 1 || (show_single && n > 0) {
            let ghost before = tally@;
            tally.push((n, id));
            assert(tally@.map_values(|e: (usize, TagId)| e.1.0) =~= before.map_values(
                |e: (usize, TagId)| e.1.0,
            ).push(id.0));
            assert forall|i: int| 0 <= i < tally@.len() implies #[trigger] tally@[i].0 == carried_by(*db, found, tally@[i].1.0) by {
                if i < before.len() {
                    assert(tally@[i] == before[i]);
                }
            }
        }
        k = k + 1;
    }
    proof {
        assert(keys.take(rows@.len() as int) =~= keys);
        lemma_keep_if_lists(keys, db.tags.rows().dom(), pred);
        assert(db.tags.rows().dom().filter(pred) =~= Set::new(
            |t: usize|
                db.tags.rows().contains_key(t) && listed_count(carried_by(*db, found, t), show_single),
        ));
    }
    tally
}

/// The tags the pieces found carry, each with how many of them carry it,
/// ordered by tag name (tags with equal names in increasing order of id);
/// tags carried once are left out unless `show_single` asks for them.
pub fn tag_tally(ids: &Vec<PieceId>, db: &DbV2, show_single: bool) -> (shown: Vec<(usize, TagId)>)
    ensures
        exists|tally: Seq<(usize, TagId)>, order: Seq<usize>|
            #[trigger] tally_shown(*db, indices(ids@), show_single, tally, order, shown@),
{
    let tally = tally_of(ids, db, show_single);
    proof {
        assert forall|i: int| 0 <= i < tally@.len() implies db.tags.rows().contains_key(#[trigger] tally@[i].1.0) by {
            let idx = tally@.map_values(|e: (usize, TagId)| e.1.0);
            assert(idx[i] == tally@[i].1.0);
        }
    }
    let names = tally_name_list(db, &tally);
    let order = stable_text_order(&names);
    let n = order.len();
    let mut shown: Vec<(usize, TagId)> = Vec::new();
    let mut i: usize = 0;
    while i < n
        invariant
            i <= n,
            n == order@.len(),
            order@.len() == tally@.len(),
            forall|j: int| 0 <= j < n ==> #[trigger] order@[j] < tally@.len(),
            shown@.len() == i,
            forall|j: int| 0 <= j < i ==> #[trigger] shown@[j] == tally@[order@[j] as int],
        decreases n - i,
    {
        shown.push(tally[order[i]]);
        i = i + 1;
    }
    assert(tally_shown(*db, indices(ids@), show_single, tally@, order@, shown@));
    shown
}

/// The names of the tags of a tally.
fn tally_name_list(db: &DbV2, tally: &Vec<(usize, TagId)>) -> (names: Vec<String>)
    requires
        forall|i: int| 0 <= i < tally@.len() ==> db.tags.rows().contains_key(#[trigger] tally@[i].1.0),
    ensures
        texts(names@) == tally_names(*db, tally@),
{
    let mut names: Vec<String> = Vec::new();
    let mut k: usize = 0;
    while k < tally.len()
        invariant
            k <= tally@.len(),
            forall|i: int| 0 <= i < tally@.len() ==> db.tags.rows().contains_key(#[trigger] tally@[i].1.0),
            texts(names@) == tally_names(*db, tally@).take(k as int),
        decreases tally@.len() - k,
    {
        let tag = db.tags.index(tally[k].1);
        let ghost before = names@;
        assert(texts(before).len() == k);
        assert(before.len() == k);
        names.push(tag.name.clone());
        proof {
            assert(names@[k as int]@ == db.tags.rows()[tally@[k as int].1.0].name@);
            assert forall|i: int| 0 <= i < k implies names@[i] == before[i] by {}
            assert(texts(names@) =~= tally_names(*db, tally@).take(k + 1));
        }
        k = k + 1;
    }
    assert(tally_names(*db, tally@).take(tally@.len() as int) =~= tally_names(*db, tally@));
    names
}

/// `shown` is the tally of the pieces `ids` in the stable order `order` of
/// the tag names.
pub open spec fn tally_shown(
    db: DbV2,
    ids: Seq<usize>,
    show_single: bool,
    tally: Seq<(usize, TagId)>,
    order: Seq<usize>,
    shown: Seq<(usize, TagId)>,
) -> bool {
    &&& is_tally(db, ids, show_single, tally)
    &&& is_stable_text_order(tally_names(db, tally), order)
    &&& shown.len() == order.len()
    &&& forall|j: int| 0 <= j < shown.len() ==> #[trigger] shown[j] == tally[order[j] as int]
}

} // verus!
