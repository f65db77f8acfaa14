//! The order pieces are listed in: the search results by the column chosen,
//! and the gallery, newest first, each piece shown by one of its images.
use crate::db::{indices, DbV2};
use crate::entities::{BlobId, BlobType, CategoryId, Piece, PieceId, Tag, TagId};
use crate::model::Date;
use crate::relation::{keep_if, keys_with_value, lefts_of, lemma_keep_if_lists, lemma_listed_len, lists_in_order, rights_of};
use crate::sorting::{
    is_stable_order, is_stable_text_order, stable_order, stable_text_order, texts,
};
use crate::views::{Search, SortedBy};
use crate::execute::{passing_pieces, stuck_on_some_piece};
use crate::grammar::spec_search;
use crate::parse::parse_search;
use vstd::prelude::*;

verus! {

/// A date as one number that orders dates as the calendar does.
pub open spec fn date_rank(d: Date) -> int {
    d.year * 0x1_0000_0000_0000_0000 + d.month * 0x1_0000_0000 + d.day
}

/// A price as one number; no price comes before every price.
pub open spec fn price_rank(p: Option<i64>) -> int {
    match p {
        Some(v) => v as int,
        None => i64::MIN - 1,
    }
}

/// The number a piece is ordered by in the price and date columns.
pub open spec fn rank_in_column(piece: Piece, by: SortedBy) -> int {
    match by {
        SortedBy::Name => 0,
        SortedBy::Price => price_rank(piece.base_price),
        SortedBy::Added => date_rank(piece.added),
    }
}

/// What `str::to_lowercase` gives: the text lowercased by Unicode's case
/// mappings, some of which look at the neighbouring characters (a capital
/// sigma at the end of a word becomes a final sigma).
pub uninterp spec fn lowercase(s: Seq<char>) -> Seq<char>;

/// Calls `str::to_lowercase`.  Its result is stated only through
/// [`lowercase`]: Unicode's case mappings are not written out here.
#[verifier::external_body]
fn to_lowercase(s: &str) -> (r: String)
    ensures
        r@ == lowercase(s@),
{
    s.to_lowercase()
}

/// The texts the name column orders the pieces `ids` by: their descriptions
/// (which hold what the first version called the name), in lowercase.
pub open spec fn name_keys(db: DbV2, ids: Seq<PieceId>) -> Seq<Seq<char>> {
    ids.map_values(|id: PieceId| lowercase(db.pieces.rows()[id.0].description@))
}

/// Ordering dates by their rank is ordering them by the calendar.
pub proof fn lemma_date_rank_orders(a: Date, b: Date)
    ensures
        date_rank(a) <= date_rank(b) <==> a.spec_le(b),
{
    let m: int = 0x1_0000_0000;
    assert(0x1_0000_0000_0000_0000 == m * m);
    let ra = a.year * (m * m) + a.month * m + a.day;
    let rb = b.year * (m * m) + b.month * m + b.day;
    assert(0 <= a.month < m && 0 <= b.month < m && 0 <= a.day < m && 0 <= b.day < m);
    if a.year < b.year {
        assert(ra < rb) by (nonlinear_arith)
            requires
                a.year < b.year,
                0 <= a.month < m,
                0 <= b.month < m,
                0 <= a.day < m,
                0 <= b.day < m,
                m > 0,
                ra == a.year * (m * m) + a.month * m + a.day,
                rb == b.year * (m * m) + b.month * m + b.day,
        ;
    } else if a.year > b.year {
        assert(ra > rb) by (nonlinear_arith)
            requires
                a.year > b.year,
                0 <= a.month < m,
                0 <= b.month < m,
                0 <= a.day < m,
                0 <= b.day < m,
                m > 0,
                ra == a.year * (m * m) + a.month * m + a.day,
                rb == b.year * (m * m) + b.month * m + b.day,
        ;
    } else if a.month < b.month {
        assert(ra < rb) by (nonlinear_arith)
            requires
                a.year == b.year,
                a.month < b.month,
                0 <= a.day < m,
                0 <= b.day < m,
                ra == a.year * (m * m) + a.month * m + a.day,
                rb == b.year * (m * m) + b.month * m + b.day,
        ;
    } else if a.month > b.month {
        assert(ra > rb) by (nonlinear_arith)
            requires
                a.year == b.year,
                a.month > b.month,
                0 <= a.day < m,
                0 <= b.day < m,
                ra == a.year * (m * m) + a.month * m + a.day,
                rb == b.year * (m * m) + b.month * m + b.day,
        ;
    }
}

/// The rank of a date.
fn date_key(d: Date) -> (k: i128)
    ensures
        k == date_rank(d),
{
    (d.year as i128) * 0x1_0000_0000_0000_0000i128 + (d.month as i128) * 0x1_0000_0000i128 + (
    d.day as i128)
}

/// The rank of a price.
fn price_key(p: Option<i64>) -> (k: i128)
    ensures
        k == price_rank(p),
{
    match p {
        Some(v) => v as i128,
        None => (i64::MIN as i128) - 1,
    }
}

/// The ranks of the pieces `ids` in column `by`.
pub open spec fn ranks(db: DbV2, ids: Seq<PieceId>, by: SortedBy) -> Seq<i128> {
    ids.map_values(|id: PieceId| rank_in_column(db.pieces.rows()[id.0], by) as i128)
}

/// `shown` lists `ids` in the stable order `order`, last to first when
/// `reversed`.
pub open spec fn listed_in<A>(shown: Seq<A>, ids: Seq<A>, order: Seq<usize>, reversed: bool) -> bool {
    &&& shown.len() == order.len()
    &&& forall|i: int|
        0 <= i < shown.len() ==> #[trigger] shown[i] == ids[order[if reversed {
            order.len() - 1 - i
        } else {
            i
        }] as int]
}

/// `shown` lists the pieces `search` found in the stable order `order` of the
/// column chosen, last to first when the screen shows them reversed.
pub open spec fn shown_in_order(shown: Seq<PieceId>, search: Search, db: DbV2, order: Seq<usize>) -> bool {
    &&& if search.sorted_by == SortedBy::Name {
        is_stable_text_order(name_keys(db, search.query_result@), order)
    } else {
        is_stable_order(ranks(db, search.query_result@, search.sorted_by), order)
    }
    &&& listed_in(
        shown,
        search.query_result@,
        order,
        !search.ascending != (search.sorted_by == SortedBy::Added),
    )
}

impl Search {
    /// The pieces found, in the order the screen shows them: by the column
    /// chosen, pieces with equal values in the order they were found, and
    /// last to first when [`Search::shows_reversed`] says so.
    pub fn order_found(&self, db: &DbV2) -> (shown: Vec<PieceId>)
        requires
            forall|i: int|
                0 <= i < self.query_result@.len() ==> db.pieces.rows().contains_key(
                    #[trigger] self.query_result@[i].0,
                ),
        ensures
            exists|order: Seq<usize>| shown_in_order(shown@, *self, *db, order),
    {
        let found = &self.query_result;
        let order = if self.sorted_by == SortedBy::Name {
            self.name_order(db)
        } else {
            self.rank_order(db)
        };
        let reversed = self.shows_reversed();
        let n = order.len();
        let mut shown: Vec<PieceId> = Vec::new();
        let mut i: usize = 0;
        while i < n
            invariant
                i <= n,
                n == order@.len(),
                found == &self.query_result,
                reversed == (!self.ascending != (self.sorted_by == SortedBy::Added)),
                if self.sorted_by == SortedBy::Name {
                    is_stable_text_order(name_keys(*db, self.query_result@), order@)
                } else {
                    is_stable_order(ranks(*db, self.query_result@, self.sorted_by), order@)
                },
                order@.len() == found@.len(),
                forall|j: int| 0 <= j < n ==> #[trigger] order@[j] < found@.len(),
                shown@.len() == i,
                forall|j: int|
                    0 <= j < i ==> #[trigger] shown@[j] == found@[order@[if reversed {
                        n - 1 - j
                    } else {
                        j
                    }] as int],
            decreases n - i,
        {
            let pos = if reversed {
                order[n - 1 - i]
            } else {
                order[i]
            };
            shown.push(found[pos]);
            i = i + 1;
        }
        assert(shown_in_order(shown@, *self, *db, order@));
        shown
    }

    /// The positions of the pieces found, ordered by their names.
    fn name_order(&self, db: &DbV2) -> (order: Vec<usize>)
        requires
            forall|i: int|
                0 <= i < self.query_result@.len() ==> db.pieces.rows().contains_key(
                    #[trigger] self.query_result@[i].0,
                ),
        ensures
            is_stable_text_order(name_keys(*db, self.query_result@), order@),
    {
        let found = &self.query_result;
        let mut keys: Vec<String> = Vec::new();
        let mut k: usize = 0;
        while k < found.len()
            invariant
                k <= found@.len(),
                found == &self.query_result,
                forall|i: int|
                    0 <= i < found@.len() ==> db.pieces.rows().contains_key(#[trigger] found@[i].0),
                texts(keys@) == name_keys(*db, found@).take(k as int),
            decreases found@.len() - k,
        {
            let piece = db.pieces.index(found[k]);
            let lower = to_lowercase(piece.description.as_str());
            let ghost before = keys@;
            assert(texts(before).len() == k);
            assert(before.len() == k);
            keys.push(lower);
            proof {
                assert(keys@[k as int]@ == lowercase(db.pieces.rows()[found@[k as int].0].description@));
                assert forall|i: int| 0 <= i < k implies keys@[i] == before[i] by {}
                assert(texts(keys@) =~= name_keys(*db, found@).take(k + 1));
            }
            k = k + 1;
        }
        assert(texts(keys@) =~= name_keys(*db, found@));
        stable_text_order(&keys)
    }

    /// The positions of the pieces found, ordered by price or date.
    fn rank_order(&self, db: &DbV2) -> (order: Vec<usize>)
        requires
            forall|i: int|
                0 <= i < self.query_result@.len() ==> db.pieces.rows().contains_key(
                    #[trigger] self.query_result@[i].0,
                ),
        ensures
            is_stable_order(ranks(*db, self.query_result@, self.sorted_by), order@),
    {
        let found = &self.query_result;
        let mut keys: Vec<i128> = Vec::new();
        let mut k: usize = 0;
        while k < found.len()
            invariant
                k <= found@.len(),
                found == &self.query_result,
                forall|i: int|
                    0 <= i < found@.len() ==> db.pieces.rows().contains_key(#[trigger] found@[i].0),
                keys@ == ranks(*db, found@, self.sorted_by).take(k as int),
            decreases found@.len() - k,
        {
            let piece = db.pieces.index(found[k]);
            let key = match self.sorted_by {
                SortedBy::Name => 0i128,
                SortedBy::Price => price_key(piece.base_price),
                SortedBy::Added => date_key(piece.added),
            };
            keys.push(key);
            assert(keys@ =~= ranks(*db, found@, self.sorted_by).take(k + 1));
            k = k + 1;
        }
        assert(keys@ =~= ranks(*db, found@, self.sorted_by));
        stable_order(&keys)
    }
}

/// `b` is the first blob of type `t` of piece `p`: no blob of the piece with a
/// smaller id has that type.
pub open spec fn is_first_of_type(db: DbV2, p: usize, t: BlobType, b: usize) -> bool {
    &&& db.media@.contains((p, b))
    &&& db.blobs.rows()[b].blob_type == t
    &&& forall|c: usize|
        c < b && #[trigger] db.media@.contains((p, c)) ==> db.blobs.rows()[c].blob_type != t
}

/// Every blob of piece `p` has a row.
pub open spec fn blobs_known(db: DbV2, p: usize) -> bool {
    forall|b: usize| #[trigger] db.media@.contains((p, b)) ==> db.blobs.rows().contains_key(b)
}

/// The ranks of the dates the pieces `ids` were added on.
pub open spec fn date_ranks(db: DbV2, ids: Seq<PieceId>) -> Seq<i128> {
    ids.map_values(|id: PieceId| date_rank(db.pieces.rows()[id.0].added) as i128)
}

/// The pieces `ids`, newest first: ordered by the date they were added, and
/// then shown last to first.
pub fn newest_first(db: &DbV2, ids: &Vec<PieceId>) -> (shown: Vec<PieceId>)
    requires
        forall|i: int| 0 <= i < ids@.len() ==> db.pieces.rows().contains_key(#[trigger] ids@[i].0),
    ensures
        exists|order: Seq<usize>|
            is_stable_order(date_ranks(*db, ids@), order) && #[trigger] listed_in(
                shown@,
                ids@,
                order,
                true,
            ),
{
    let mut keys: Vec<i128> = Vec::new();
    let mut k: usize = 0;
    while k < ids.len()
        invariant
            k <= ids@.len(),
            forall|i: int| 0 <= i < ids@.len() ==> db.pieces.rows().contains_key(#[trigger] ids@[i].0),
            keys@ == date_ranks(*db, ids@).take(k as int),
        decreases ids@.len() - k,
    {
        let piece = db.pieces.index(ids[k]);
        keys.push(date_key(piece.added));
        assert(keys@ =~= date_ranks(*db, ids@).take(k + 1));
        k = k + 1;
    }
    assert(keys@ =~= date_ranks(*db, ids@));
    let order = stable_order(&keys);
    let n = order.len();
    let mut shown: Vec<PieceId> = Vec::new();
    let mut i: usize = 0;
    while i < n
        invariant
            i <= n,
            n == order@.len(),
            order@.len() == ids@.len(),
            is_stable_order(date_ranks(*db, ids@), order@),
            shown@.len() == i,
            forall|j: int| 0 <= j < i ==> #[trigger] shown@[j] == ids@[order@[n - 1 - j] as int],
        decreases n - i,
    {
        shown.push(ids[order[n - 1 - i]]);
        i = i + 1;
    }
    assert(listed_in(shown@, ids@, order@, true));
    shown
}

/// The first blob of type `t` of piece `p`, if it has one.
pub open spec fn first_of_type(db: DbV2, p: usize, t: BlobType) -> Option<usize> {
    if exists|b: usize| is_first_of_type(db, p, t, b) {
        Some(choose|b: usize| is_first_of_type(db, p, t, b))
    } else {
        None
    }
}

/// A piece has at most one first blob of each type.
proof fn lemma_first_of_type_unique(db: DbV2, p: usize, t: BlobType, b: usize)
    requires
        is_first_of_type(db, p, t, b),
    ensures
        first_of_type(db, p, t) == Some(b),
{
    let c = choose|c: usize| is_first_of_type(db, p, t, c);
    if c < b {
        assert(db.media@.contains((p, c)));
    } else if b < c {
        assert(db.media@.contains((p, b)));
    }
}

/// `r` is the thumbnail of piece `p`: its first canonical blob, or nothing
/// when it has no canonical blob.
pub open spec fn is_thumbnail(db: DbV2, p: usize, r: Option<BlobId>) -> bool {
    match r {
        Some(b) => db.is_canon_blob_of(p, b.0) && forall|c: usize|
            c < b.0 ==> !db.is_canon_blob_of(p, c),
        None => forall|c: usize| !db.is_canon_blob_of(p, c),
    }
}

/// The gallery: every piece of the database, neither filtered nor sorted
/// (in increasing order of id), each with its thumbnail, its first canonical
/// blob.
pub fn gallery(db: &DbV2) -> (shown: Vec<(PieceId, Option<BlobId>)>)
    requires
        forall|p: usize| db.pieces.rows().contains_key(p) ==> #[trigger] db.blobs_of_piece_resolvable(p),
    ensures
        lists_in_order(
            shown@.map_values(|e: (PieceId, Option<BlobId>)| e.0.0),
            db.pieces.rows().dom(),
        ),
        forall|i: int|
            0 <= i < shown@.len() ==> is_thumbnail(*db, (#[trigger] shown@[i]).0.0, shown@[i].1),
{
    let ids = db.pieces.keys();
    let mut shown: Vec<(PieceId, Option<BlobId>)> = Vec::new();
    let mut k: usize = 0;
    while k < ids.len()
        invariant
            k <= ids@.len(),
            forall|p: usize| db.pieces.rows().contains_key(p) ==> #[trigger] db.blobs_of_piece_resolvable(p),
            lists_in_order(crate::table::id_indices(ids@), db.pieces.rows().dom()),
            shown@.len() == k,
            forall|i: int| 0 <= i < k ==> (#[trigger] shown@[i]).0 == ids@[i],
            forall|i: int|
                0 <= i < k ==> is_thumbnail(*db, (#[trigger] shown@[i]).0.0, shown@[i].1),
        decreases ids@.len() - k,
    {
        let piece = ids[k];
        assert(crate::table::id_indices(ids@)[k as int] == piece.0);
        assert(db.pieces.rows().dom().contains(piece.0));
        let thumbnail = db.primary_blob_for_piece(piece);
        shown.push((piece, thumbnail));
        k = k + 1;
    }
    assert(shown@.map_values(|e: (PieceId, Option<BlobId>)| e.0.0) =~= crate::table::id_indices(ids@));
    shown
}

/// How many pieces carry tag `t`.
pub open spec fn use_count(db: DbV2, t: usize) -> int {
    lefts_of(db.piece_tags@, t).len() as int
}

/// The most used tags, at most `limit` of them: `used` lists every tag of the
/// database that some piece carries, in increasing order of id; `by_use`
/// orders it by how many pieces carry each tag; the `limit` most used (the
/// last of that order, last first) are then ordered by name by `by_name`.
pub open spec fn top_tags(
    db: DbV2,
    limit: nat,
    used: Seq<TagId>,
    by_use: Seq<usize>,
    by_name: Seq<usize>,
    shown: Seq<TagId>,
) -> bool {
    let top_len = if used.len() < limit { used.len() as int } else { limit as int };
    let top = Seq::new(top_len as nat, |i: int| used[by_use[used.len() - 1 - i] as int]);
    &&& lists_in_order(used.map_values(|t: TagId| t.0), Set::new(|t: usize| in_use(db, t)))
    &&& is_stable_order(used.map_values(|t: TagId| use_count(db, t.0) as i128), by_use)
    &&& is_stable_text_order(top.map_values(|t: TagId| db.tags.rows()[t.0].name@), by_name)
    &&& shown.len() == by_name.len()
    &&& forall|i: int| 0 <= i < shown.len() ==> #[trigger] shown[i] == top[by_name[i] as int]
}

/// Tag `t` of the database is carried by some piece.
pub open spec fn in_use(db: DbV2, t: usize) -> bool {
    db.tags.rows().contains_key(t) && use_count(db, t) > 0
}

/// The tags some piece carries, in increasing order of id, with how many
/// pieces carry each.
fn used_tags(db: &DbV2) -> (r: (Vec<TagId>, Vec<i128>))
    ensures
        lists_in_order(r.0@.map_values(|t: TagId| t.0), Set::new(|t: usize| in_use(*db, t))),
        r.1@ == r.0@.map_values(|t: TagId| use_count(*db, t.0) as i128),
{
    let rows = db.tags();
    let ghost keys = rows@.map_values(|e: (TagId, &Tag)| e.0.0);
    let ghost pred = |t: usize| in_use(*db, t);
    let mut used: Vec<TagId> = Vec::new();
    let mut counts: Vec<i128> = Vec::new();
    let mut k: usize = 0;
    while k < rows.len()
        invariant
            k <= rows@.len(),
            keys == rows@.map_values(|e: (TagId, &Tag)| e.0.0),
            lists_in_order(keys, db.tags.rows().dom()),
            pred == (|t: usize| in_use(*db, t)),
            used@.map_values(|t: TagId| t.0) == keep_if(keys.take(k as int), pred),
            counts@ == used@.map_values(|t: TagId| use_count(*db, t.0) as i128),
        decreases rows@.len() - k,
    {
        let id = rows[k].0;
        assert(keys[k as int] == id.0);
        assert(db.tags.rows().contains_key(id.0));
        assert(keys.take(k + 1).drop_last() =~= keys.take(k as int));
        assert(keys.take(k + 1).last() == id.0);
        let carriers = db.pieces_for_tag(id);
        proof {
            lemma_listed_len(indices(carriers@), lefts_of(db.piece_tags@, id.0));
        }
        if carriers.len() > 0 {
            let ghost before = used@;
            used.push(id);
            counts.push(carriers.len() as i128);
            assert(used@.map_values(|t: TagId| t.0) =~= before.map_values(|t: TagId| t.0).push(id.0));
            assert(counts@ =~= used@.map_values(|t: TagId| use_count(*db, t.0) as i128));
        }
        k = k + 1;
    }
    proof {
        assert(keys.take(rows@.len() as int) =~= keys);
        lemma_keep_if_lists(keys, db.tags.rows().dom(), pred);
        assert(db.tags.rows().dom().filter(pred) =~= Set::new(|t: usize| in_use(*db, t)));
    }
    (used, counts)
}

/// The tags the gallery lists beside the pictures: the `limit` tags that
/// most pieces carry (among equally used tags, the later ids first),
/// ordered by name.
pub fn gallery_tags(db: &DbV2, limit: usize) -> (shown: Vec<TagId>)
    ensures
        exists|used: Seq<TagId>, by_use: Seq<usize>, by_name: Seq<usize>|
            #[trigger] top_tags(*db, limit as nat, used, by_use, by_name, shown@),
{
    let (used, counts) = used_tags(db);
    proof {
        assert forall|j: int| 0 <= j < used@.len() implies db.tags.rows().contains_key(#[trigger] used@[j].0) by {
            let idx = used@.map_values(|t: TagId| t.0);
            assert(idx[j] == used@[j].0);
        }
    }
    let by_use = stable_order(&counts);
    let n = used.len();
    let top_len = if n < limit {
        n
    } else {
        limit
    };
    let ghost top = Seq::new(top_len as nat, |i: int| used@[by_use@[n - 1 - i] as int]);
    let mut top_ids: Vec<TagId> = Vec::new();
    let mut names: Vec<String> = Vec::new();
    let mut i: usize = 0;
    while i < top_len
        invariant
            i <= top_len,
            top_len <= n,
            n == used@.len(),
            by_use@.len() == n,
            is_stable_order(counts@, by_use@),
            top == Seq::new(top_len as nat, |i: int| used@[by_use@[n - 1 - i] as int]),
            forall|j: int| 0 <= j < used@.len() ==> db.tags.rows().contains_key(#[trigger] used@[j].0),
            top_ids@ == top.take(i as int),
            texts(names@) == top.take(i as int).map_values(|t: TagId| db.tags.rows()[t.0].name@),
        decreases top_len - i,
    {
        let pos = by_use[n - 1 - i];
        let id = used[pos];
        let ghost before = names@;
        assert(texts(before).len() == i);
        let name = db.tags.index(id).name.clone();
        top_ids.push(id);
        names.push(name);
        proof {
            assert(top[i as int] == id);
            assert(names@[i as int]@ == db.tags.rows()[id.0].name@);
            assert(top_ids@ =~= top.take(i + 1));
            assert forall|j: int| 0 <= j < i + 1 implies #[trigger] texts(names@)[j] == top.take(i + 1).map_values(
                |t: TagId| db.tags.rows()[t.0].name@,
            )[j] by {
                if j < i {
                    assert(names@[j] == before[j]);
                    assert(texts(before)[j] == top.take(i as int).map_values(
                        |t: TagId| db.tags.rows()[t.0].name@,
                    )[j]);
                }
            }
            assert(texts(names@) =~= top.take(i + 1).map_values(|t: TagId| db.tags.rows()[t.0].name@));
        }
        i = i + 1;
    }
    assert(top.take(top_len as int) =~= top);
    let by_name = stable_text_order(&names);
    let m = by_name.len();
    let mut shown: Vec<TagId> = Vec::new();
    let mut j: usize = 0;
    while j < m
        invariant
            j <= m,
            m == by_name@.len(),
            by_name@.len() == top_ids@.len(),
            forall|q: int| 0 <= q < m ==> #[trigger] by_name@[q] < top_ids@.len(),
            shown@.len() == j,
            forall|q: int| 0 <= q < j ==> #[trigger] shown@[q] == top_ids@[by_name@[q] as int],
        decreases m - j,
    {
        shown.push(top_ids[by_name[j]]);
        j = j + 1;
    }
    assert(top_tags(*db, limit as nat, used@, by_use@, by_name@, shown@));
    shown
}

/// The blobs of piece `p` of type `t`.
pub open spec fn blobs_of_type_set(db: DbV2, p: usize, t: BlobType) -> Set<usize> {
    Set::new(|b: usize| db.media@.contains((p, b)) && db.blobs.rows()[b].blob_type == t)
}

/// The blobs of a piece of one type, in increasing order of id: what one tab
/// of the piece screen shows.
pub fn blobs_of_type(db: &DbV2, piece: PieceId, t: BlobType) -> (ids: Vec<BlobId>)
    requires
        blobs_known(*db, piece.0),
    ensures
        lists_in_order(indices(ids@), blobs_of_type_set(*db, piece.0, t)),
{
    let all = db.blobs_for_piece(piece);
    let ghost keys = indices(all@);
    let ghost pred = |b: usize| db.blobs.rows()[b].blob_type == t;
    let mut ids: Vec<BlobId> = Vec::new();
    let mut k: usize = 0;
    while k < all.len()
        invariant
            k <= all@.len(),
            keys == indices(all@),
            lists_in_order(keys, rights_of(db.media@, piece.0)),
            blobs_known(*db, piece.0),
            pred == (|b: usize| db.blobs.rows()[b].blob_type == t),
            indices(ids@) == keep_if(keys.take(k as int), pred),
        decreases all@.len() - k,
    {
        let b = all[k];
        assert(keys[k as int] == b.0);
        assert(rights_of(db.media@, piece.0).contains(b.0));
        assert(db.media@.contains((piece.0, b.0)));
        assert(keys.take(k + 1).drop_last() =~= keys.take(k as int));
        assert(keys.take(k + 1).last() == b.0);
        if db.blobs.index(b).blob_type == t {
            let ghost before = ids@;
            ids.push(b);
            assert(indices(ids@) =~= indices(before).push(b.0));
        }
        k = k + 1;
    }
    proof {
        assert(keys.take(all@.len() as int) =~= keys);
        lemma_keep_if_lists(keys, rights_of(db.media@, piece.0), pred);
        assert(rights_of(db.media@, piece.0).filter(pred) =~= blobs_of_type_set(*db, piece.0, t));
    }
    ids
}

/// `shown` lists the tags `tags` of a category, each with how many pieces
/// carry it, in the stable order `order` of their names.
pub open spec fn category_listing(
    db: DbV2,
    category: usize,
    tags: Seq<TagId>,
    order: Seq<usize>,
    shown: Seq<(TagId, usize)>,
) -> bool {
    &&& lists_in_order(indices(tags), keys_with_value(db.tag_category@, category))
    &&& is_stable_text_order(tags.map_values(|t: TagId| db.tags.rows()[t.0].name@), order)
    &&& shown.len() == order.len()
    &&& forall|i: int|
        0 <= i < shown.len() ==> #[trigger] shown[i] == (
            tags[order[i] as int],
            use_count(db, tags[order[i] as int].0) as usize,
        )
}

/// The tags of a category, ordered by name, each with how many pieces carry
/// it: what the category screen lists.
pub fn category_tags(db: &DbV2, category: CategoryId) -> (shown: Vec<(TagId, usize)>)
    requires
        forall|t: usize|
            #[trigger] db.tag_category@.contains_key(t) && db.tag_category@[t] == category.0
                ==> db.tags.rows().contains_key(t),
    ensures
        exists|tags: Seq<TagId>, order: Seq<usize>|
            #[trigger] category_listing(*db, category.0, tags, order, shown@),
{
    let tags = db.tags_for_category(category);
    let mut names: Vec<String> = Vec::new();
    let mut counts: Vec<usize> = Vec::new();
    let mut k: usize = 0;
    while k < tags.len()
        invariant
            k <= tags@.len(),
            lists_in_order(indices(tags@), keys_with_value(db.tag_category@, category.0)),
            forall|t: usize|
                #[trigger] db.tag_category@.contains_key(t) && db.tag_category@[t] == category.0
                    ==> db.tags.rows().contains_key(t),
            texts(names@) == tags@.take(k as int).map_values(|t: TagId| db.tags.rows()[t.0].name@),
            counts@.len() == k,
            forall|i: int| 0 <= i < k ==> #[trigger] counts@[i] == use_count(*db, tags@[i].0),
        decreases tags@.len() - k,
    {
        let id = tags[k];
        assert(indices(tags@)[k as int] == id.0);
        assert(keys_with_value(db.tag_category@, category.0).contains(id.0));
        assert(db.tags.rows().contains_key(id.0));
        let name = db.tags.index(id).name.clone();
        let carriers = db.pieces_for_tag(id);
        proof {
            lemma_listed_len(indices(carriers@), lefts_of(db.piece_tags@, id.0));
        }
        let ghost before = names@;
        assert(texts(before).len() == k);
        names.push(name);
        counts.push(carriers.len());
        proof {
            assert forall|j: int| 0 <= j < k + 1 implies #[trigger] texts(names@)[j] == tags@.take(k + 1).map_values(
                |t: TagId| db.tags.rows()[t.0].name@,
            )[j] by {
                if j < k {
                    assert(names@[j] == before[j]);
                    assert(texts(before)[j] == tags@.take(k as int).map_values(
                        |t: TagId| db.tags.rows()[t.0].name@,
                    )[j]);
                }
            }
            assert(texts(names@) =~= tags@.take(k + 1).map_values(|t: TagId| db.tags.rows()[t.0].name@));
        }
        k = k + 1;
    }
    assert(tags@.take(tags@.len() as int) =~= tags@);
    let order = stable_text_order(&names);
    let n = order.len();
    let mut shown: Vec<(TagId, usize)> = Vec::new();
    let mut i: usize = 0;
    while i < n
        invariant
            i <= n,
            n == order@.len(),
            order@.len() == tags@.len(),
            counts@.len() == tags@.len(),
            forall|j: int| 0 <= j < n ==> #[trigger] order@[j] < tags@.len(),
            forall|j: int| 0 <= j < tags@.len() ==> #[trigger] counts@[j] == use_count(*db, tags@[j].0),
            shown@.len() == i,
            forall|j: int| 0 <= j < i ==> #[trigger] shown@[j] == (
                tags@[order@[j] as int],
                use_count(*db, tags@[order@[j] as int].0) as usize,
            ),
        decreases n - i,
    {
        let pos = order[i];
        shown.push((tags[pos], counts[pos]));
        i = i + 1;
    }
    assert(category_listing(*db, category.0, tags@, order@, shown@));
    shown
}

/// The category tag `t` is in, as a slot number.
pub open spec fn category_of(db: DbV2, t: usize) -> Option<usize> {
    if db.tag_category@.contains_key(t) {
        Some(db.tag_category@[t])
    } else {
        None
    }
}

/// The slot number of a category, if there is one.
pub open spec fn slot_of(c: Option<CategoryId>) -> Option<usize> {
    match c {
        Some(c) => Some(c.0),
        None => None,
    }
}

/// The names of some tags.
pub open spec fn tag_names(db: DbV2, tags: Seq<TagId>) -> Seq<Seq<char>> {
    tags.map_values(|t: TagId| db.tags.rows()[t.0].name@)
}

/// `shown` is `tags` in the stable order `order` of their names.
pub open spec fn ordered_by_name(db: DbV2, tags: Seq<TagId>, order: Seq<usize>, shown: Seq<TagId>) -> bool {
    &&& is_stable_text_order(tag_names(db, tags), order)
    &&& shown.len() == order.len()
    &&& forall|i: int| 0 <= i < shown.len() ==> #[trigger] shown[i] == tags[order[i] as int]
}

/// Tags put in order of their names, tags with equal names in the order they
/// came in.
fn order_tags_by_name(db: &DbV2, tags: &Vec<TagId>) -> (shown: Vec<TagId>)
    requires
        forall|i: int| 0 <= i < tags@.len() ==> db.tags.rows().contains_key(#[trigger] tags@[i].0),
    ensures
        exists|order: Seq<usize>| #[trigger] ordered_by_name(*db, tags@, order, shown@),
{
    let mut names: Vec<String> = Vec::new();
    let mut k: usize = 0;
    while k < tags.len()
        invariant
            k <= tags@.len(),
            forall|i: int| 0 <= i < tags@.len() ==> db.tags.rows().contains_key(#[trigger] tags@[i].0),
            texts(names@) == tag_names(*db, tags@).take(k as int),
        decreases tags@.len() - k,
    {
        let id = tags[k];
        let name = db.tags.index(id).name.clone();
        let ghost before = names@;
        assert(texts(before).len() == k);
        names.push(name);
        proof {
            assert forall|j: int| 0 <= j < k + 1 implies #[trigger] texts(names@)[j] == tag_names(*db, tags@).take(k + 1)[j] by {
                if j < k {
                    assert(names@[j] == before[j]);
                    assert(texts(before)[j] == tag_names(*db, tags@).take(k as int)[j]);
                }
            }
            assert(texts(names@) =~= tag_names(*db, tags@).take(k + 1));
        }
        k = k + 1;
    }
    assert(tag_names(*db, tags@).take(tags@.len() as int) =~= tag_names(*db, tags@));
    let order = stable_text_order(&names);
    let n = order.len();
    let mut shown: Vec<TagId> = Vec::new();
    let mut i: usize = 0;
    while i < n
        invariant
            i <= n,
            n == order@.len(),
            order@.len() == tags@.len(),
            forall|j: int| 0 <= j < n ==> #[trigger] order@[j] < tags@.len(),
            shown@.len() == i,
            forall|j: int| 0 <= j < i ==> #[trigger] shown@[j] == tags@[order@[j] as int],
        decreases n - i,
    {
        shown.push(tags[order[i]]);
        i = i + 1;
    }
    assert(ordered_by_name(*db, tags@, order@, shown@));
    shown
}

/// The tags a piece carries that are in category `category` (or in none,
/// for `None`), ordered by name: one group of the piece's tag editor.
pub fn piece_tags_in(db: &DbV2, piece: PieceId, category: Option<CategoryId>) -> (shown: Vec<TagId>)
    requires
        forall|t: usize| #[trigger] db.piece_tags@.contains((piece.0, t)) ==> db.tags.rows().contains_key(t),
    ensures
        exists|tags: Seq<TagId>, order: Seq<usize>|
            lists_in_order(
                indices(tags),
                Set::new(|t: usize| db.piece_tags@.contains((piece.0, t)) && category_of(*db, t) == slot_of(category)),
            ) && #[trigger] ordered_by_name(*db, tags, order, shown@),
{
    let all = db.tags_for_piece(piece);
    let ghost keys = indices(all@);
    let ghost pred = |t: usize| category_of(*db, t) == slot_of(category);
    let mut tags: Vec<TagId> = Vec::new();
    let mut k: usize = 0;
    while k < all.len()
        invariant
            k <= all@.len(),
            keys == indices(all@),
            lists_in_order(keys, rights_of(db.piece_tags@, piece.0)),
            pred == (|t: usize| category_of(*db, t) == slot_of(category)),
            indices(tags@) == keep_if(keys.take(k as int), pred),
        decreases all@.len() - k,
    {
        let t = all[k];
        assert(keys[k as int] == t.0);
        assert(keys.take(k + 1).drop_last() =~= keys.take(k as int));
        assert(keys.take(k + 1).last() == t.0);
        let c = db.category_for_tag(t);
        let same = match (c, category) {
            (Some(a), Some(b)) => a.0 == b.0,
            (None, None) => true,
            _ => false,
        };
        if same {
            let ghost before = tags@;
            tags.push(t);
            assert(indices(tags@) =~= indices(before).push(t.0));
        }
        k = k + 1;
    }
    proof {
        assert(keys.take(all@.len() as int) =~= keys);
        lemma_keep_if_lists(keys, rights_of(db.piece_tags@, piece.0), pred);
        assert(rights_of(db.piece_tags@, piece.0).filter(pred) =~= Set::new(
            |t: usize| db.piece_tags@.contains((piece.0, t)) && category_of(*db, t) == slot_of(category),
        ));
        assert forall|i: int| 0 <= i < tags@.len() implies db.tags.rows().contains_key(#[trigger] tags@[i].0) by {
            assert(indices(tags@)[i] == tags@[i].0);
            assert(rights_of(db.piece_tags@, piece.0).filter(pred).contains(tags@[i].0));
        }
    }
    let shown = order_tags_by_name(db, &tags);
    proof {
        let order = choose|order: Seq<usize>| #[trigger] ordered_by_name(*db, tags@, order, shown@);
        assert(ordered_by_name(*db, tags@, order, shown@));
    }
    shown
}

/// The tags of category `category` (or of none, for `None`) that a piece
/// does not carry yet, ordered by name: what the piece's tag editor offers
/// to add.
pub fn addable_tags(db: &DbV2, piece: PieceId, category: Option<CategoryId>) -> (shown: Vec<TagId>)
    ensures
        exists|tags: Seq<TagId>, order: Seq<usize>|
            lists_in_order(
                indices(tags),
                Set::new(
                    |t: usize|
                        db.tags.rows().contains_key(t) && !db.piece_tags@.contains((piece.0, t))
                            && category_of(*db, t) == slot_of(category),
                ),
            ) && #[trigger] ordered_by_name(*db, tags, order, shown@),
{
    broadcast use vstd::std_specs::btree::group_btree_axioms;
    let all = db.tags.keys();
    let ghost keys = crate::table::id_indices(all@);
    let ghost pred = |t: usize| !db.piece_tags@.contains((piece.0, t)) && category_of(*db, t) == slot_of(category);
    let mut tags: Vec<TagId> = Vec::new();
    let mut k: usize = 0;
    while k < all.len()
        invariant
            k <= all@.len(),
            keys == crate::table::id_indices(all@),
            lists_in_order(keys, db.tags.rows().dom()),
            pred == (|t: usize| !db.piece_tags@.contains((piece.0, t)) && category_of(*db, t) == slot_of(category)),
            indices(tags@) == keep_if(keys.take(k as int), pred),
        decreases all@.len() - k,
    {
        proof {
            crate::relation::lemma_ids_ordered();
        }
        let t = all[k];
        assert(keys[k as int] == t.0);
        assert(keys.take(k + 1).drop_last() =~= keys.take(k as int));
        assert(keys.take(k + 1).last() == t.0);
        let carried = db.piece_tags.contains(&(piece.0, t.0));
        let c = db.category_for_tag(t);
        let same = match (c, category) {
            (Some(a), Some(b)) => a.0 == b.0,
            (None, None) => true,
            _ => false,
        };
        if !carried && same {
            let ghost before = tags@;
            tags.push(t);
            assert(indices(tags@) =~= indices(before).push(t.0));
        }
        k = k + 1;
    }
    proof {
        assert(keys.take(all@.len() as int) =~= keys);
        lemma_keep_if_lists(keys, db.tags.rows().dom(), pred);
        assert(db.tags.rows().dom().filter(pred) =~= Set::new(
            |t: usize|
                db.tags.rows().contains_key(t) && !db.piece_tags@.contains((piece.0, t))
                    && category_of(*db, t) == slot_of(category),
        ));
        assert forall|i: int| 0 <= i < tags@.len() implies db.tags.rows().contains_key(#[trigger] tags@[i].0) by {
            assert(indices(tags@)[i] == tags@[i].0);
            assert(db.tags.rows().dom().filter(pred).contains(tags@[i].0));
        }
    }
    let shown = order_tags_by_name(db, &tags);
    proof {
        let order = choose|order: Seq<usize>| #[trigger] ordered_by_name(*db, tags@, order, shown@);
        assert(ordered_by_name(*db, tags@, order, shown@));
    }
    shown
}

/// One line of the tag list: a tag, how many pieces carry it, and its
/// category with how many tags the category has.
pub struct TagLine {
    pub tag: TagId,
    pub pieces: usize,
    pub category: Option<(CategoryId, usize)>,
}

/// The tags of some lines.
pub open spec fn line_tags(lines: Seq<TagLine>) -> Seq<usize> {
    lines.map_values(|l: TagLine| l.tag.0)
}

/// How many tags are in category `c`.
pub open spec fn category_size(db: DbV2, c: usize) -> int {
    keys_with_value(db.tag_category@, c).len() as int
}

/// The line the tag list shows for tag `t`.
pub open spec fn tag_line_of(db: DbV2, t: usize, line: TagLine) -> bool {
    &&& line.tag.0 == t
    &&& line.pieces == use_count(db, t)
    &&& match category_of(db, t) {
        Some(c) => line.category matches Some((id, n)) && id.0 == c && n == category_size(db, c),
        None => line.category is None,
    }
}

/// The tag list: every tag, in increasing order of id, with how many pieces
/// carry it and its category with the category's size.
pub fn tag_list(db: &DbV2) -> (lines: Vec<TagLine>)
    ensures
        lists_in_order(line_tags(lines@), db.tags.rows().dom()),
        forall|i: int| 0 <= i < lines@.len() ==> tag_line_of(*db, lines@[i].tag.0, #[trigger] lines@[i]),
{
    let ids = db.tags.keys();
    let ghost keys = crate::table::id_indices(ids@);
    let mut lines: Vec<TagLine> = Vec::new();
    let mut k: usize = 0;
    while k < ids.len()
        invariant
            k <= ids@.len(),
            keys == crate::table::id_indices(ids@),
            line_tags(lines@) == keys.take(k as int),
            forall|i: int| 0 <= i < lines@.len() ==> tag_line_of(*db, lines@[i].tag.0, #[trigger] lines@[i]),
        decreases ids@.len() - k,
    {
        let t = ids[k];
        assert(keys[k as int] == t.0);
        let carriers = db.pieces_for_tag(t);
        proof {
            lemma_listed_len(indices(carriers@), lefts_of(db.piece_tags@, t.0));
        }
        let category = match db.category_for_tag(t) {
            Some(c) => {
                let members = db.tags_for_category(c);
                proof {
                    lemma_listed_len(indices(members@), keys_with_value(db.tag_category@, c.0));
                }
                Some((c, members.len()))
            },
            None => None,
        };
        let ghost before = lines@;
        assert(line_tags(before).len() == k);
        lines.push(TagLine { tag: t, pieces: carriers.len(), category });
        proof {
            assert forall|j: int| 0 <= j < k + 1 implies #[trigger] line_tags(lines@)[j] == keys.take(k + 1)[j] by {
                if j < k {
                    assert(lines@[j] == before[j]);
                    assert(line_tags(before)[j] == keys.take(k as int)[j]);
                }
            }
            assert(line_tags(lines@) =~= keys.take(k + 1));
        }
        k = k + 1;
    }
    assert(keys.take(ids@.len() as int) =~= keys);
    lines
}

/// The first canonical blob of each of the pieces that have one, in the
/// order of the pieces.
pub open spec fn canon_blobs(db: DbV2, pieces: Seq<PieceId>) -> Seq<usize>
    decreases pieces.len(),
{
    if pieces.len() == 0 {
        Seq::empty()
    } else {
        let before = canon_blobs(db, pieces.drop_last());
        match first_of_type(db, pieces.last().0, BlobType::Canon) {
            Some(b) => before.push(b),
            None => before,
        }
    }
}

/// `blobs` shows the pieces `carriers` that carry a tag (in increasing order
/// of id) newest first (`newest`, put in order by `order`), each by its
/// first canonical blob.
pub open spec fn tag_pictures_listing(
    db: DbV2,
    tag: usize,
    carriers: Seq<PieceId>,
    newest: Seq<PieceId>,
    order: Seq<usize>,
    blobs: Seq<BlobId>,
) -> bool {
    &&& lists_in_order(indices(carriers), lefts_of(db.piece_tags@, tag))
    &&& is_stable_order(date_ranks(db, carriers), order)
    &&& listed_in(newest, carriers, order, true)
    &&& indices(blobs) == canon_blobs(db, newest)
}

/// The pictures of the tag screen: the pieces that carry the tag, newest
/// first, each shown by its first canonical blob; pieces with none are left
/// out.
pub fn tag_pictures(db: &DbV2, tag: TagId) -> (blobs: Vec<BlobId>)
    requires
        forall|p: usize| #[trigger] db.piece_tags@.contains((p, tag.0)) ==> db.pieces.rows().contains_key(p)
            && blobs_known(*db, p),
    ensures
        exists|carriers: Seq<PieceId>, newest: Seq<PieceId>, order: Seq<usize>|
            #[trigger] tag_pictures_listing(*db, tag.0, carriers, newest, order, blobs@),
{
    let carriers = db.pieces_for_tag(tag);
    proof {
        assert forall|i: int| 0 <= i < carriers@.len() implies db.pieces.rows().contains_key(#[trigger] carriers@[i].0) by {
            assert(indices(carriers@)[i] == carriers@[i].0);
            assert(lefts_of(db.piece_tags@, tag.0).contains(carriers@[i].0));
        }
    }
    let newest = newest_first(db, &carriers);
    let mut blobs: Vec<BlobId> = Vec::new();
    let mut k: usize = 0;
    while k < newest.len()
        invariant
            k <= newest@.len(),
            lists_in_order(indices(carriers@), lefts_of(db.piece_tags@, tag.0)),
            forall|p: usize| #[trigger] db.piece_tags@.contains((p, tag.0)) ==> db.pieces.rows().contains_key(p)
                && blobs_known(*db, p),
            exists|order: Seq<usize>|
                is_stable_order(date_ranks(*db, carriers@), order) && #[trigger] listed_in(
                    newest@,
                    carriers@,
                    order,
                    true,
                ),
            indices(blobs@) == canon_blobs(*db, newest@.take(k as int)),
        decreases newest@.len() - k,
    {
        let piece = newest[k];
        proof {
            let order = choose|order: Seq<usize>|
                is_stable_order(date_ranks(*db, carriers@), order) && #[trigger] listed_in(
                    newest@,
                    carriers@,
                    order,
                    true,
                );
            let pos = order[order.len() - 1 - k] as int;
            assert(newest@[k as int] == carriers@[pos]);
            assert(indices(carriers@)[pos] == carriers@[pos].0);
            assert(lefts_of(db.piece_tags@, tag.0).contains(carriers@[pos].0));
            assert(db.piece_tags@.contains((piece.0, tag.0)));
            assert(newest@.take(k + 1).drop_last() =~= newest@.take(k as int));
            assert forall|b: usize|
                #![trigger db.media@.contains((piece.0, b))]
                db.media@.contains((piece.0, b)) && !(exists|c: usize|
                    c < b && db.is_canon_blob_of(piece.0, c)) implies db.blobs.rows().contains_key(b) by {}
        }
        let choice = db.primary_blob_for_piece(piece);
        proof {
            match choice {
                Some(b) => {
                    assert forall|c: usize| c < b.0 && #[trigger] db.media@.contains((piece.0, c)) implies db.blobs.rows()[c].blob_type != BlobType::Canon by {
                        assert(!db.is_canon_blob_of(piece.0, c));
                    }
                    assert(is_first_of_type(*db, piece.0, BlobType::Canon, b.0));
                    lemma_first_of_type_unique(*db, piece.0, BlobType::Canon, b.0);
                },
                None => {
                    assert(!(exists|c: usize| is_first_of_type(*db, piece.0, BlobType::Canon, c))) by {
                        if exists|c: usize| is_first_of_type(*db, piece.0, BlobType::Canon, c) {
                            let c = choose|c: usize| is_first_of_type(*db, piece.0, BlobType::Canon, c);
                            assert(db.is_canon_blob_of(piece.0, c));
                        }
                    }
                },
            }
        }
        match choice {
            Some(b) => {
                blobs.push(b);
                assert(indices(blobs@) =~= canon_blobs(*db, newest@.take(k + 1)));
            },
            None => {
                assert(indices(blobs@) =~= canon_blobs(*db, newest@.take(k + 1)));
            },
        }
        k = k + 1;
    }
    assert(newest@.take(newest@.len() as int) =~= newest@);
    proof {
        let order = choose|order: Seq<usize>|
            is_stable_order(date_ranks(*db, carriers@), order) && #[trigger] listed_in(
                newest@,
                carriers@,
                order,
                true,
            );
        assert(tag_pictures_listing(*db, tag.0, carriers@, newest@, order, blobs@));
    }
    blobs
}

impl Search {
    /// Runs the query typed in the search bar: when it reads as a search,
    /// the pieces it finds, in increasing order of id, become the results;
    /// otherwise the results stay.
    pub fn refresh(&mut self, text: &str, db: &DbV2)
        requires
            spec_search(text@, 0) matches Some((j, q)) ==> !stuck_on_some_piece(*db, q),
        ensures
            final(self).ascending == old(self).ascending,
            final(self).sorted_by == old(self).sorted_by,
            final(self).show_single_tags == old(self).show_single_tags,
            match spec_search(text@, 0) {
                Some((j, q)) => lists_in_order(
                    indices(final(self).query_result@),
                    passing_pieces(*db, q),
                ),
                None => final(self).query_result@ == old(self).query_result@,
            },
    {
        match parse_search(text) {
            Ok((_, parsed)) => {
                self.query_result = parsed.execute(db);
            },
            Err(_) => {},
        }
    }
}

} // verus!
