//! Running a search against the database.
//!
//! A condition that names something the database does not know (a tag, or
//! a tag in a category, that does not exist) has no verdict; such a
//! condition lets every piece through, alone or inside `|` and
//! conjunctions, and its negation lets every piece through too.
use crate::db::DbV2;
use crate::entities::{Piece, PieceId, TagId};
use crate::model::{Condition, DateOp, Search, SpecCondition, SpecSearch};
use crate::relation::lists_in_order;
use crate::table::TableId;
use vstd::prelude::*;

verus! {

/// A verdict, where no verdict counts as a pass.
pub open spec fn unwrap_or_true(v: Option<bool>) -> bool {
    match v {
        Some(b) => b,
        None => true,
    }
}

/// The tag `t` is in the database and is named `name`.
pub open spec fn tag_named(db: DbV2, name: Seq<char>, t: usize) -> bool {
    db.tags.rows().contains_key(t) && db.tags.rows()[t].name@ == name
}

/// The tag `t` is in a category that has no row.
pub open spec fn category_missing(db: DbV2, t: usize) -> bool {
    db.tag_category@.contains_key(t) && !db.categories.rows().contains_key(db.tag_category@[t])
}

/// The name of the category of the tag `t`, if it is in one.
pub open spec fn category_name_of(db: DbV2, t: usize) -> Option<Seq<char>> {
    if db.tag_category@.contains_key(t) {
        Some(db.categories.rows()[db.tag_category@[t]].name@)
    } else {
        None
    }
}

/// The tag `t` is named `name` and its category's name is `category`.
pub open spec fn tag_in_category(db: DbV2, category: Option<Seq<char>>, name: Seq<char>, t: usize) -> bool {
    tag_named(db, name, t) && category_name_of(db, t) == category
}

/// `t` is the lowest id of a tag named `name`.
pub open spec fn is_first_named(db: DbV2, name: Seq<char>, t: usize) -> bool {
    &&& tag_named(db, name, t)
    &&& forall|j: usize| j < t ==> !tag_named(db, name, j)
}

/// The lowest id of a tag named `name`, if there is such a tag.
pub open spec fn first_named(db: DbV2, name: Seq<char>) -> Option<usize> {
    if exists|t: usize| is_first_named(db, name, t) {
        Some(choose|t: usize| is_first_named(db, name, t))
    } else {
        None
    }
}

/// `t` is the lowest id of a tag named `name` in the category named `category`.
pub open spec fn is_first_in_category(
    db: DbV2,
    category: Option<Seq<char>>,
    name: Seq<char>,
    t: usize,
) -> bool {
    &&& tag_in_category(db, category, name, t)
    &&& forall|j: usize| j < t ==> !tag_in_category(db, category, name, j)
}

/// The lowest id of a tag named `name` in the category named `category`, if any.
pub open spec fn first_in_category(db: DbV2, category: Option<Seq<char>>, name: Seq<char>) -> Option<
    usize,
> {
    if exists|t: usize| is_first_in_category(db, category, name, t) {
        Some(choose|t: usize| is_first_in_category(db, category, name, t))
    } else {
        None
    }
}

/// The verdict of a condition on the piece `piece_id`, or `None` when it
/// names a tag (or tag in a category) that does not exist.
pub open spec fn eval_condition(db: DbV2, piece_id: usize, piece: Piece, c: SpecCondition) -> Option<
    bool,
> {
    match c {
        SpecCondition::Tag(name) => match first_named(db, name) {
            Some(t) => Some(db.piece_tags@.contains((piece_id, t))),
            None => None,
        },
        SpecCondition::TagWithCategory(category, name) => match first_in_category(
            db,
            category,
            name,
        ) {
            Some(t) => Some(db.piece_tags@.contains((piece_id, t))),
            None => None,
        },
        SpecCondition::DateAdded(DateOp::Before, date) => Some(piece.added.spec_le(date)),
        SpecCondition::DateAdded(DateOp::After, date) => Some(date.spec_le(piece.added)),
        _ => None,
    }
}

/// Looking a condition up meets a tag whose category has no row before it
/// finds the tag it looks for.
pub open spec fn condition_stuck(db: DbV2, c: SpecCondition) -> bool {
    match c {
        SpecCondition::TagWithCategory(category, name) => exists|t: usize|
            #![trigger category_missing(db, t)]
            tag_named(db, name, t) && category_missing(db, t) && forall|j: usize|
                j < t && tag_named(db, name, j) ==> !category_missing(db, j) && category_name_of(
                    db,
                    j,
                ) != category,
        _ => false,
    }
}

/// The verdict of a search on a piece: `|` holds when one operand passes, a
/// conjunction when every operand passes, and a negation flips a verdict.
pub open spec fn eval_search(db: DbV2, piece_id: usize, piece: Piece, s: SpecSearch) -> Option<
    bool,
>
    decreases s,
{
    match s {
        SpecSearch::Or(cs) => Some(
            exists|k: int|
                0 <= k < cs.len() && unwrap_or_true(eval_search(db, piece_id, piece, cs[k])),
        ),
        SpecSearch::And(cs) => Some(
            forall|k: int|
                0 <= k < cs.len() ==> unwrap_or_true(eval_search(db, piece_id, piece, cs[k])),
        ),
        SpecSearch::Negate(b) => match eval_search(db, piece_id, piece, *b) {
            Some(v) => Some(!v),
            None => None,
        },
        SpecSearch::Test(c) => eval_condition(db, piece_id, piece, c),
    }
}

/// Evaluating the search meets a tag whose category has no row: operands
/// are looked at in order, and `|` stops at the first that passes, a
/// conjunction at the first that fails.
pub open spec fn search_stuck(db: DbV2, piece_id: usize, piece: Piece, s: SpecSearch) -> bool
    decreases s,
{
    match s {
        SpecSearch::Or(cs) => exists|k: int|
            0 <= k < cs.len() && search_stuck(db, piece_id, piece, cs[k]) && forall|j: int|
                0 <= j < k ==> !unwrap_or_true(eval_search(db, piece_id, piece, cs[j])),
        SpecSearch::And(cs) => exists|k: int|
            0 <= k < cs.len() && search_stuck(db, piece_id, piece, cs[k]) && forall|j: int|
                0 <= j < k ==> unwrap_or_true(eval_search(db, piece_id, piece, cs[j])),
        SpecSearch::Negate(b) => search_stuck(db, piece_id, piece, *b),
        SpecSearch::Test(c) => condition_stuck(db, c),
    }
}


/// The tag ids listed before position `k` of an increasing list of all tag
/// ids are exactly the tag ids below the one at position `k`.
proof fn lemma_earlier_in_list(db: DbV2, rows: Seq<usize>, k: int, j: usize) -> (i: int)
    requires
        lists_in_order(rows, db.tags.rows().dom()),
        0 <= k < rows.len(),
        j < rows[k],
        db.tags.rows().contains_key(j),
    ensures
        0 <= i < k,
        rows[i] == j,
{
    assert(rows.contains(j));
    let i = choose|i: int| 0 <= i < rows.len() && rows[i] == j;
    if i >= k {
        if i > k {
            assert(rows[k] < rows[i]);
        }
    }
    i
}

/// The lowest-id tag named `name`.
fn first_tag_named(db: &DbV2, name: &String) -> (r: Option<TagId>)
    ensures
        match first_named(*db, name@) {
            Some(t) => r matches Some(x) && x.0 == t,
            None => r is None,
        },
{
    let rows = db.tags();
    let ghost keys = rows@.map_values(|e: (TagId, &crate::entities::Tag)| e.0.0);
    let mut k: usize = 0;
    while k < rows.len()
        invariant
            k <= rows@.len(),
            keys == rows@.map_values(|e: (TagId, &crate::entities::Tag)| e.0.0),
            lists_in_order(keys, db.tags.rows().dom()),
            forall|i: int|
                0 <= i < rows@.len() ==> *(#[trigger] rows@[i]).1 == db.tags.rows()[rows@[i].0.0],
            forall|i: int| 0 <= i < k ==> !tag_named(*db, name@, #[trigger] keys[i]),
        decreases rows@.len() - k,
    {
        let (id, tag) = rows[k];
        assert(keys[k as int] == id.0);
        assert(db.tags.rows().contains_key(id.0));
        if tag.name == *name {
            proof {
                assert forall|j: usize| j < id.0 implies !tag_named(*db, name@, j) by {
                    if tag_named(*db, name@, j) {
                        let i = lemma_earlier_in_list(*db, keys, k as int, j);
                    }
                }
                assert(is_first_named(*db, name@, id.0));
                let c = choose|x: usize| is_first_named(*db, name@, x);
                if c < id.0 {
                } else if c > id.0 {
                }
            }
            return Some(id);
        }
        k = k + 1;
    }
    proof {
        if exists|t: usize| is_first_named(*db, name@, t) {
            let t = choose|t: usize| is_first_named(*db, name@, t);
            assert(keys.contains(t));
            let i = choose|i: int| 0 <= i < keys.len() && keys[i] == t;
            assert(!tag_named(*db, name@, keys[i]));
        }
    }
    None
}

/// The lowest-id tag named `name` whose category's name is `category`
/// (`None`: in no category); `None` when the search meets, first, a tag
/// named `name` whose category has no row.
fn first_tag_in_category(db: &DbV2, category: &Option<String>, name: &String) -> (r: Option<
    Option<TagId>,
>)
    ensures
        r is None <==> condition_stuck(
            *db,
            SpecCondition::TagWithCategory(
                match category {
                    Some(c) => Some(c@),
                    None => None,
                },
                name@,
            ),
        ),
        r matches Some(x) ==> match first_in_category(
            *db,
            match category {
                Some(c) => Some(c@),
                None => None,
            },
            name@,
        ) {
            Some(t) => x matches Some(y) && y.0 == t,
            None => x is None,
        },
{
    let ghost cat = match category {
        Some(c) => Some(c@),
        None => None,
    };
    let rows = db.tags();
    let ghost keys = rows@.map_values(|e: (TagId, &crate::entities::Tag)| e.0.0);
    let mut k: usize = 0;
    while k < rows.len()
        invariant
            k <= rows@.len(),
            keys == rows@.map_values(|e: (TagId, &crate::entities::Tag)| e.0.0),
            lists_in_order(keys, db.tags.rows().dom()),
            forall|i: int|
                0 <= i < rows@.len() ==> *(#[trigger] rows@[i]).1 == db.tags.rows()[rows@[i].0.0],
            cat == match category {
                Some(c) => Some(c@),
                None => None,
            },
            forall|i: int|
                0 <= i < k && tag_named(*db, name@, #[trigger] keys[i]) ==> !category_missing(
                    *db,
                    keys[i],
                ) && category_name_of(*db, keys[i]) != cat,
        decreases rows@.len() - k,
    {
        let (id, tag) = rows[k];
        assert(keys[k as int] == id.0);
        assert(db.tags.rows().contains_key(id.0));
        assert(*tag == db.tags.rows()[id.0]);
        if tag.name == *name {
            assert(tag_named(*db, name@, id.0));
            let same = match db.category_for_tag(id) {
                Some(c) => {
                    if !db.categories.has(c) {
                        proof {
                            assert forall|j: usize|
                                j < id.0 && tag_named(*db, name@, j) implies !category_missing(
                                *db,
                                j,
                            ) && category_name_of(*db, j) != cat by {
                                let i = lemma_earlier_in_list(*db, keys, k as int, j);
                            }
                            assert(category_missing(*db, id.0));
                        }
                        return None;
                    }
                    let cname = &db.categories.index(c).name;
                    assert(category_name_of(*db, id.0) == Some(cname@));
                    match category {
                        Some(wanted) => {
                            let eq = *cname == *wanted;
                            assert(eq == (cname@ == wanted@));
                            assert(cat == Some(wanted@));
                            eq
                        },
                        None => {
                            assert(cat == None::<Seq<char>>);
                            false
                        },
                    }
                },
                None => {
                    assert(category_name_of(*db, id.0) == None::<Seq<char>>);
                    category.is_none()
                },
            };
            assert(same == (category_name_of(*db, id.0) == cat));
            if same {
                proof {
                    assert forall|j: usize| j < id.0 implies !tag_in_category(*db, cat, name@, j) by {
                        if tag_in_category(*db, cat, name@, j) {
                            let i = lemma_earlier_in_list(*db, keys, k as int, j);
                        }
                    }
                    assert(is_first_in_category(*db, cat, name@, id.0));
                    let c = choose|x: usize| is_first_in_category(*db, cat, name@, x);
                    if c < id.0 {
                    } else if c > id.0 {
                    }
                    if condition_stuck(*db, SpecCondition::TagWithCategory(cat, name@)) {
                        let t = choose|t: usize|
                            #![trigger category_missing(*db, t)]
                            tag_named(*db, name@, t) && category_missing(*db, t) && forall|j: usize|
                                j < t && tag_named(*db, name@, j) ==> !category_missing(*db, j)
                                    && category_name_of(*db, j) != cat;
                        if t < id.0 {
                            let i = lemma_earlier_in_list(*db, keys, k as int, t);
                        } else if t > id.0 {
                            assert(tag_named(*db, name@, id.0));
                        }
                    }
                }
                return Some(Some(id));
            }
        }
        k = k + 1;
    }
    proof {
        if exists|t: usize| is_first_in_category(*db, cat, name@, t) {
            let t = choose|t: usize| is_first_in_category(*db, cat, name@, t);
            assert(keys.contains(t));
            let i = choose|i: int| 0 <= i < keys.len() && keys[i] == t;
            assert(tag_named(*db, name@, keys[i]));
        }
        if condition_stuck(*db, SpecCondition::TagWithCategory(cat, name@)) {
            let t = choose|t: usize|
                #![trigger category_missing(*db, t)]
                tag_named(*db, name@, t) && category_missing(*db, t) && forall|j: usize|
                    j < t && tag_named(*db, name@, j) ==> !category_missing(*db, j)
                        && category_name_of(*db, j) != cat;
            assert(keys.contains(t));
            let i = choose|i: int| 0 <= i < keys.len() && keys[i] == t;
            assert(tag_named(*db, name@, keys[i]));
        }
    }
    Some(None)
}


/// The verdict of a condition on a piece, or `None` when looking it up
/// meets a tag whose category has no row.
fn try_evaluate_test(test: &Condition, piece_id: PieceId, piece: &Piece, db: &DbV2) -> (r: Option<
    Option<bool>,
>)
    ensures
        r is None <==> condition_stuck(*db, test@),
        r matches Some(v) ==> v == eval_condition(*db, piece_id.0, *piece, test@),
{
    broadcast use vstd::std_specs::btree::group_btree_axioms;
    proof {
        crate::relation::lemma_ids_ordered();
    }
    match test {
        Condition::Tag(tag_name) => match first_tag_named(db, tag_name) {
            Some(searched) => Some(Some(db.piece_tags.contains(&(piece_id.0, searched.0)))),
            None => Some(None),
        },
        Condition::TagWithCategory(category_name, tag_name) => match first_tag_in_category(
            db,
            category_name,
            tag_name,
        ) {
            Some(Some(searched)) => Some(Some(db.piece_tags.contains(&(piece_id.0, searched.0)))),
            Some(None) => Some(None),
            None => None,
        },
        Condition::DateAdded(op, date) => match op {
            DateOp::Before => Some(Some(piece.added.le(date))),
            DateOp::After => Some(Some(date.le(&piece.added))),
        },
        Condition::Price(..) => Some(None),
        Condition::Media(..) => Some(None),
        Condition::Source(..) => Some(None),
    }
}

impl Search {
    /// The verdict of a search on a piece, or `None` when evaluating it meets
    /// a tag whose category has no row.
    fn try_evaluate(&self, piece_id: PieceId, piece: &Piece, db: &DbV2) -> (r: Option<Option<bool>>)
        ensures
            r is None <==> search_stuck(*db, piece_id.0, *piece, self@),
            r matches Some(v) ==> v == eval_search(*db, piece_id.0, *piece, self@),
        decreases self,
    {
        match self {
            Search::Or(inner) => Search::try_any(inner, piece_id, piece, db),
            Search::And(inner) => Search::try_all(inner, piece_id, piece, db),
            Search::Negate(inner) => match inner.try_evaluate(piece_id, piece, db) {
                Some(Some(v)) => Some(Some(!v)),
                Some(None) => Some(None),
                None => None,
            },
            Search::Test(test) => try_evaluate_test(test, piece_id, piece, db),
        }
    }

    /// Whether some search of the list passes, looking at them in order.
    fn try_any(list: &Vec<Search>, piece_id: PieceId, piece: &Piece, db: &DbV2) -> (r: Option<
        Option<bool>,
    >)
        ensures
            r is None <==> search_stuck(*db, piece_id.0, *piece, SpecSearch::Or(Search::view_list(list@))),
            r matches Some(v) ==> v == eval_search(
                *db,
                piece_id.0,
                *piece,
                SpecSearch::Or(Search::view_list(list@)),
            ),
        decreases list@,
    {
        let ghost cs = Search::view_list(list@);
        let mut k: usize = 0;
        while k < list.len()
            invariant
                k <= list@.len(),
                cs == Search::view_list(list@),
                forall|j: int|
                    0 <= j < k ==> !search_stuck(*db, piece_id.0, *piece, #[trigger] cs[j])
                        && !unwrap_or_true(eval_search(*db, piece_id.0, *piece, cs[j])),
            decreases list@.len() - k,
        {
            assert(decreases_to!(list@ => list@[k as int]));
            assert(cs[k as int] == list@[k as int]@);
            match list[k].try_evaluate(piece_id, piece, db) {
                None => {
                    return None;
                },
                Some(v) => {
                    let passes = match v {
                        Some(b) => b,
                        None => true,
                    };
                    if passes {
                        proof {
                            let s = SpecSearch::Or(cs);
                            if search_stuck(*db, piece_id.0, *piece, s) {
                                let w = choose|w: int|
                                    0 <= w < cs.len() && search_stuck(*db, piece_id.0, *piece, cs[w])
                                        && forall|j: int|
                                        0 <= j < w ==> !unwrap_or_true(
                                            eval_search(*db, piece_id.0, *piece, cs[j]),
                                        );
                                if w > k {
                                    assert(!unwrap_or_true(
                                        eval_search(*db, piece_id.0, *piece, cs[k as int]),
                                    ));
                                }
                            }
                        }
                        return Some(Some(true));
                    }
                },
            }
            k = k + 1;
        }
        proof {
            let s = SpecSearch::Or(cs);
            if search_stuck(*db, piece_id.0, *piece, s) {
                let w = choose|w: int|
                    0 <= w < cs.len() && search_stuck(*db, piece_id.0, *piece, cs[w]) && forall|j: int|
                        0 <= j < w ==> !unwrap_or_true(eval_search(*db, piece_id.0, *piece, cs[j]));
                assert(!search_stuck(*db, piece_id.0, *piece, cs[w]));
            }
            if exists|j: int|
                0 <= j < cs.len() && unwrap_or_true(eval_search(*db, piece_id.0, *piece, cs[j])) {
                let j = choose|j: int|
                    0 <= j < cs.len() && unwrap_or_true(eval_search(*db, piece_id.0, *piece, cs[j]));
                assert(!unwrap_or_true(eval_search(*db, piece_id.0, *piece, cs[j])));
            }
        }
        Some(Some(false))
    }

    /// Whether every search of the list passes, looking at them in order.
    fn try_all(list: &Vec<Search>, piece_id: PieceId, piece: &Piece, db: &DbV2) -> (r: Option<
        Option<bool>,
    >)
        ensures
            r is None <==> search_stuck(
                *db,
                piece_id.0,
                *piece,
                SpecSearch::And(Search::view_list(list@)),
            ),
            r matches Some(v) ==> v == eval_search(
                *db,
                piece_id.0,
                *piece,
                SpecSearch::And(Search::view_list(list@)),
            ),
        decreases list@,
    {
        let ghost cs = Search::view_list(list@);
        let mut k: usize = 0;
        while k < list.len()
            invariant
                k <= list@.len(),
                cs == Search::view_list(list@),
                forall|j: int|
                    0 <= j < k ==> !search_stuck(*db, piece_id.0, *piece, #[trigger] cs[j])
                        && unwrap_or_true(eval_search(*db, piece_id.0, *piece, cs[j])),
            decreases list@.len() - k,
        {
            assert(decreases_to!(list@ => list@[k as int]));
            assert(cs[k as int] == list@[k as int]@);
            match list[k].try_evaluate(piece_id, piece, db) {
                None => {
                    return None;
                },
                Some(v) => {
                    let passes = match v {
                        Some(b) => b,
                        None => true,
                    };
                    if !passes {
                        proof {
                            let s = SpecSearch::And(cs);
                            if search_stuck(*db, piece_id.0, *piece, s) {
                                let w = choose|w: int|
                                    0 <= w < cs.len() && search_stuck(*db, piece_id.0, *piece, cs[w])
                                        && forall|j: int|
                                        0 <= j < w ==> unwrap_or_true(
                                            eval_search(*db, piece_id.0, *piece, cs[j]),
                                        );
                                if w > k {
                                    assert(unwrap_or_true(
                                        eval_search(*db, piece_id.0, *piece, cs[k as int]),
                                    ));
                                }
                            }
                        }
                        return Some(Some(false));
                    }
                },
            }
            k = k + 1;
        }
        proof {
            let s = SpecSearch::And(cs);
            if search_stuck(*db, piece_id.0, *piece, s) {
                let w = choose|w: int|
                    0 <= w < cs.len() && search_stuck(*db, piece_id.0, *piece, cs[w]) && forall|j: int|
                        0 <= j < w ==> unwrap_or_true(eval_search(*db, piece_id.0, *piece, cs[j]));
                assert(!search_stuck(*db, piece_id.0, *piece, cs[w]));
            }
        }
        Some(Some(true))
    }
}


/// The pieces that pass a search: every piece whose verdict is a pass or
/// that has no verdict.
pub open spec fn passing_pieces(db: DbV2, s: SpecSearch) -> Set<usize> {
    Set::new(
        |p: usize|
            db.pieces.rows().contains_key(p) && unwrap_or_true(
                eval_search(db, p, db.pieces.rows()[p], s),
            ),
    )
}

/// Evaluating the search on some piece of the database meets a tag whose
/// category has no row.
pub open spec fn stuck_on_some_piece(db: DbV2, s: SpecSearch) -> bool {
    exists|p: usize|
        db.pieces.rows().contains_key(p) && #[trigger] search_stuck(db, p, db.pieces.rows()[p], s)
}

/// The verdict of a condition on a piece: `Some(true)` or `Some(false)`, or
/// `None` when the condition names no tag (or tag in a category) of the
/// database, or is one that pieces carry no data for (price, media, source).
pub fn evaluate_test(test: &Condition, value: &(PieceId, &Piece), db: &DbV2) -> (r: Option<bool>)
    requires
        !condition_stuck(*db, test@),
    ensures
        r == eval_condition(*db, value.0.0, *value.1, test@),
{
    try_evaluate_test(test, value.0, value.1, db).unwrap()
}

impl Search {
    /// The verdict of the search on a piece (see [`eval_search`]).
    pub fn evaluate_internal(&self, value: &(PieceId, &Piece), db: &DbV2) -> (r: Option<bool>)
        requires
            !search_stuck(*db, value.0.0, *value.1, self@),
        ensures
            r == eval_search(*db, value.0.0, *value.1, self@),
    {
        self.try_evaluate(value.0, value.1, db).unwrap()
    }

    /// The ids of the pieces that pass the search, in increasing order, or
    /// `None` when evaluating it on some piece meets a tag whose category
    /// has no row.
    pub fn try_execute(&self, db: &DbV2) -> (r: Option<Vec<PieceId>>)
        ensures
            r is None <==> stuck_on_some_piece(*db, self@),
            r matches Some(ids) ==> lists_in_order(
                crate::db::indices(ids@),
                passing_pieces(*db, self@),
            ),
    {
        let rows = db.pieces();
        let ghost keys = rows@.map_values(|e: (PieceId, &Piece)| e.0.0);
        let mut out: Vec<PieceId> = Vec::new();
        let mut k: usize = 0;
        while k < rows.len()
            invariant
                k <= rows@.len(),
                keys == rows@.map_values(|e: (PieceId, &Piece)| e.0.0),
                lists_in_order(keys, db.pieces.rows().dom()),
                forall|i: int|
                    0 <= i < rows@.len() ==> *(#[trigger] rows@[i]).1
                        == db.pieces.rows()[rows@[i].0.0],
                forall|i: int|
                    0 <= i < k ==> !search_stuck(
                        *db,
                        #[trigger] keys[i],
                        db.pieces.rows()[keys[i]],
                        self@,
                    ),
                forall|i: int, j: int|
                    0 <= i < j < out@.len() ==> out@[i].0 < out@[j].0,
                forall|i: int|
                    0 <= i < out@.len() ==> passing_pieces(*db, self@).contains(#[trigger] out@[i].0),
                forall|i: int|
                    0 <= i < out@.len() ==> exists|t: int| 0 <= t < k && keys[t] == #[trigger] out@[i].0,
                forall|t: int|
                    0 <= t < k && passing_pieces(*db, self@).contains(#[trigger] keys[t])
                        ==> crate::db::indices(out@).contains(keys[t]),
            decreases rows@.len() - k,
        {
            let (id, piece) = rows[k];
            assert(keys[k as int] == id.0);
            assert(db.pieces.rows().contains_key(id.0));
            let ghost before = out@;
            match self.try_evaluate(id, piece, db) {
                None => {
                    return None;
                },
                Some(v) => {
                    let passes = match v {
                        Some(b) => b,
                        None => true,
                    };
                    if passes {
                        proof {
                            assert forall|i: int| 0 <= i < before.len() implies before[i].0 < id.0 by {
                                let t = choose|t: int| 0 <= t < k && keys[t] == before[i].0;
                                assert(keys[t] < keys[k as int]);
                            }
                        }
                        out.push(id);
                        proof {
                            assert(out@[out@.len() - 1] == id);
                            assert forall|i: int| 0 <= i < out@.len() implies exists|t: int|
                                0 <= t < k + 1 && keys[t] == #[trigger] out@[i].0 by {
                                if i < before.len() {
                                    let t = choose|t: int| 0 <= t < k && keys[t] == before[i].0;
                                    assert(keys[t] == out@[i].0);
                                } else {
                                    assert(keys[k as int] == out@[i].0);
                                }
                            }
                            assert forall|t: int|
                                0 <= t < k + 1 && passing_pieces(*db, self@).contains(
                                    #[trigger] keys[t],
                                ) implies crate::db::indices(out@).contains(keys[t]) by {
                                if t < k {
                                    let i = choose|i: int|
                                        0 <= i < crate::db::indices(before).len()
                                            && crate::db::indices(before)[i] == keys[t];
                                    assert(crate::db::indices(out@)[i] == keys[t]);
                                } else {
                                    assert(crate::db::indices(out@)[out@.len() - 1] == keys[t]);
                                }
                            }
                        }
                    } else {
                        assert(!passing_pieces(*db, self@).contains(keys[k as int]));
                    }
                },
            }
            k = k + 1;
        }
        proof {
            if stuck_on_some_piece(*db, self@) {
                let p = choose|p: usize|
                    db.pieces.rows().contains_key(p) && #[trigger] search_stuck(
                        *db,
                        p,
                        db.pieces.rows()[p],
                        self@,
                    );
                assert(keys.contains(p));
                let t = choose|t: int| 0 <= t < keys.len() && keys[t] == p;
                assert(!search_stuck(*db, keys[t], db.pieces.rows()[keys[t]], self@));
            }
            let idx = crate::db::indices(out@);
            assert forall|i: int, j: int| 0 <= i < j < idx.len() implies idx[i] < idx[j] by {
                assert(out@[i].0 < out@[j].0);
            }
            assert forall|i: int| 0 <= i < idx.len() implies passing_pieces(*db, self@).contains(
                #[trigger] idx[i],
            ) by {
                assert(passing_pieces(*db, self@).contains(out@[i].0));
            }
            assert forall|p: usize| passing_pieces(*db, self@).contains(p) implies idx.contains(p) by {
                assert(keys.contains(p));
                let t = choose|t: int| 0 <= t < keys.len() && keys[t] == p;
                assert(passing_pieces(*db, self@).contains(keys[t]));
            }
        }
        Some(out)
    }

    /// The ids of the pieces that pass the search, in increasing order.
    pub fn execute(&self, db: &DbV2) -> (ids: Vec<PieceId>)
        requires
            !stuck_on_some_piece(*db, self@),
        ensures
            lists_in_order(crate::db::indices(ids@), passing_pieces(*db, self@)),
    {
        self.try_execute(db).unwrap()
    }
}

} // verus!
