//! Properties that hold across the operations of the library.
use crate::grammar::{
    all_digits, blank_end, digits_value, has_char, is_item_char, is_white_space, item_end, rest_and_value, spec_and, spec_and_operand,
    spec_price, spec_whole,
    spec_and_rest, spec_condition, spec_negate, spec_or, spec_or_rest, spec_paren, spec_search,
    spec_test, spec_unary,
};

use crate::editing::{price_text_of, signed_decimal, spec_parse_price};
use crate::command::{applied, clone_is_exact, undone, BasicCommand};
use crate::db::DbV2;
use crate::v1::{upgraded, DbV1};
use crate::entities::{decimal, digit_char, storage_name_of};
use crate::frontend::{trail_after, ViewResponse};
use crate::listing::{lowercase, name_keys, date_rank, date_ranks, lemma_date_rank_orders, price_rank, ranks, shown_in_order};
use crate::views::{Search, SortedBy};
use crate::sorting::{goes_before, is_stable_order, text_goes_before, text_lt};
use crate::images::{requests, ImageCache};
use crate::backend::{blobs_in_pieces, in_some_piece};
use crate::entities::{BlobId, CategoryId, TagId};
use crate::table::{ids_increase, rows_of_pairs, Table};
use crate::relation::{lefts_of, lists_in_order, rights_of};
use crate::traits::DeleteFrom;
use crate::views::{back_from, GuiView};
use crate::entities::PieceId;
use crate::execute::{
    category_name_of, eval_condition, eval_search, is_first_in_category, is_first_named, passing_pieces,
    tag_in_category, tag_named, unwrap_or_true,
};
use crate::entities::Piece;
use crate::model::{Date, DateOp, MediaType, SourceType, SpecCondition, SpecSearch};
use vstd::prelude::*;

verus! {

/// A run of word characters ends between its start and the end of the text.
proof fn lemma_item_end_bounds(s: Seq<char>, i: int)
    requires
        0 <= i <= s.len(),
    ensures
        i <= item_end(s, i) <= s.len(),
    decreases s.len() - i,
{
    if i < s.len() && is_item_char(s[i]) {
        lemma_item_end_bounds(s, i + 1);
    }
}

/// A run of blanks ends between its start and the end of the text.
proof fn lemma_blank_end_bounds(s: Seq<char>, i: int)
    requires
        0 <= i <= s.len(),
    ensures
        i <= blank_end(s, i) <= s.len(),
    decreases s.len() - i,
{
    if i < s.len() && (s[i] == ' ' || s[i] == '\t') {
        lemma_blank_end_bounds(s, i + 1);
    }
}

/// A rule that reads from `i` reads at least one character and stops within
/// the text.
pub open spec fn reads_from<A>(r: Option<(int, A)>, s: Seq<char>, i: int) -> bool {
    r matches Some((j, v)) ==> i < j <= s.len()
}

/// Every single condition read from `i` reads at least one character.
proof fn lemma_condition_progress(s: Seq<char>, i: int)
    requires
        0 <= i <= s.len(),
    ensures
        reads_from(spec_condition(s, i), s, i),
        reads_from(spec_test(s, i), s, i),
{
    lemma_item_end_bounds(s, i);
    let a = item_end(s, i);
    if a + 1 <= s.len() {
        lemma_item_end_bounds(s, a + 1);
    }
    if a + 2 <= s.len() {
        lemma_item_end_bounds(s, a + 2);
    }
}

/// Every rule of the search grammar that succeeds from `i` reads at least one
/// character and stops within the text; the lists of further operands stop
/// between their start and the end of the text.
proof fn lemma_search_progress(s: Seq<char>, i: int)
    requires
        0 <= i <= s.len(),
    ensures
        reads_from(spec_test(s, i), s, i),
        reads_from(spec_negate(s, i), s, i),
        reads_from(spec_paren(s, i), s, i),
        reads_from(spec_unary(s, i), s, i),
        reads_from(spec_or(s, i), s, i),
        reads_from(spec_and_operand(s, i), s, i),
        reads_from(spec_and(s, i), s, i),
        reads_from(spec_search(s, i), s, i),
        i <= spec_or_rest(s, i).0 <= s.len(),
        i <= spec_and_rest(s, i).0 <= s.len(),
    decreases s.len() - i,
{
    lemma_condition_progress(s, i);
    if i + 1 <= s.len() {
        lemma_search_progress(s, i + 1);
    }
    // Further operands of a disjunction.
    if has_char(s, i, '|') {
        if let Some((m, v)) = spec_unary(s, i + 1) {
            if i < m <= s.len() {
                lemma_search_progress(s, m);
            }
        }
    }
    // Further operands of a conjunction.
    lemma_blank_end_bounds(s, i);
    let k = blank_end(s, i);
    if i < k <= s.len() {
        lemma_search_progress(s, k);
        if let Some((m, v)) = spec_and_operand(s, k) {
            if k < m <= s.len() {
                lemma_search_progress(s, m);
            }
        }
    }
    // The operands that follow a first one.
    if let Some((j, v)) = spec_unary(s, i) {
        if i < j <= s.len() {
            lemma_search_progress(s, j);
        }
    }
    if let Some((j, v)) = spec_and_operand(s, i) {
        if i < j <= s.len() {
            lemma_search_progress(s, j);
        }
    }
}

/// A search that parses reads at least one character, and what is left
/// unread is the end of the input.
pub proof fn law_parse_leaves_a_suffix(input: Seq<char>)
    ensures
        rest_and_value(input, spec_search(input, 0)) matches Some((rest, v)) ==> {
            &&& rest.len() < input.len()
            &&& rest == input.subrange(input.len() - rest.len(), input.len() as int)
        },
{
    lemma_search_progress(input, 0);
}

/// A conjunction finds exactly the pieces that every one of its operands
/// finds.
pub proof fn law_and_finds_what_all_operands_find(db: DbV2, operands: Seq<SpecSearch>)
    ensures
        passing_pieces(db, SpecSearch::And(operands)) == Set::new(
            |p: usize|
                db.pieces.rows().contains_key(p) && forall|k: int|
                    0 <= k < operands.len() ==> #[trigger] passing_pieces(
                        db,
                        operands[k],
                    ).contains(p),
        ),
{
    let lhs = passing_pieces(db, SpecSearch::And(operands));
    let rhs = Set::new(
        |p: usize|
            db.pieces.rows().contains_key(p) && forall|k: int|
                0 <= k < operands.len() ==> #[trigger] passing_pieces(db, operands[k]).contains(p),
    );
    assert forall|p: usize| lhs.contains(p) <==> rhs.contains(p) by {
        if db.pieces.rows().contains_key(p) {
            let piece = db.pieces.rows()[p];
            if eval_search(db, p, piece, SpecSearch::And(operands)) == Some(true) {
                assert forall|k: int| 0 <= k < operands.len() implies #[trigger] passing_pieces(
                    db,
                    operands[k],
                ).contains(p) by {
                    assert(crate::execute::unwrap_or_true(eval_search(db, p, piece, operands[k])));
                }
            }
            if rhs.contains(p) {
                assert forall|k: int| 0 <= k < operands.len() implies crate::execute::unwrap_or_true(
                    eval_search(db, p, piece, operands[k]),
                ) by {
                    assert(passing_pieces(db, operands[k]).contains(p));
                }
            }
        }
    }
    assert(lhs =~= rhs);
}

/// A disjunction finds exactly the pieces that some operand finds.
pub proof fn law_or_finds_what_some_operand_finds(db: DbV2, operands: Seq<SpecSearch>)
    ensures
        passing_pieces(db, SpecSearch::Or(operands)) == Set::new(
            |p: usize|
                db.pieces.rows().contains_key(p) && exists|k: int|
                    0 <= k < operands.len() && #[trigger] passing_pieces(
                        db,
                        operands[k],
                    ).contains(p),
        ),
{
    let lhs = passing_pieces(db, SpecSearch::Or(operands));
    let rhs = Set::new(
        |p: usize|
            db.pieces.rows().contains_key(p) && exists|k: int|
                0 <= k < operands.len() && #[trigger] passing_pieces(db, operands[k]).contains(p),
    );
    assert forall|p: usize| lhs.contains(p) <==> rhs.contains(p) by {
        if db.pieces.rows().contains_key(p) {
            let piece = db.pieces.rows()[p];
            if eval_search(db, p, piece, SpecSearch::Or(operands)) == Some(true) {
                let k = choose|k: int|
                    0 <= k < operands.len() && crate::execute::unwrap_or_true(
                        eval_search(db, p, piece, operands[k]),
                    );
                assert(passing_pieces(db, operands[k]).contains(p));
            }
            if rhs.contains(p) {
                let k = choose|k: int|
                    0 <= k < operands.len() && #[trigger] passing_pieces(db, operands[k]).contains(p);
                assert(crate::execute::unwrap_or_true(eval_search(db, p, piece, operands[k])));
            }
        }
    }
    assert(lhs =~= rhs);
}

/// How a search's verdict on a piece is made from its parts: a conjunction
/// passes when no operand fails, a disjunction when some operand does not
/// fail, both always give a verdict, a negation flips the verdict of what it
/// negates (and gives none where that gives none), and negating twice gives
/// the verdict of the search itself.
pub proof fn law_verdicts_of_connectives(
    db: DbV2,
    piece_id: usize,
    piece: Piece,
    search: SpecSearch,
    operands: Seq<SpecSearch>,
)
    ensures
        eval_search(db, piece_id, piece, SpecSearch::And(operands)) == Some(
            forall|k: int|
                0 <= k < operands.len() ==> unwrap_or_true(eval_search(db, piece_id, piece, operands[k])),
        ),
        eval_search(db, piece_id, piece, SpecSearch::Or(operands)) == Some(
            exists|k: int|
                0 <= k < operands.len() && unwrap_or_true(eval_search(db, piece_id, piece, operands[k])),
        ),
        eval_search(db, piece_id, piece, SpecSearch::Negate(Box::new(search))) == match eval_search(
            db,
            piece_id,
            piece,
            search,
        ) {
            Some(v) => Some(!v),
            None => None,
        },
        eval_search(
            db,
            piece_id,
            piece,
            SpecSearch::Negate(Box::new(SpecSearch::Negate(Box::new(search)))),
        ) == eval_search(db, piece_id, piece, search),
{
    let inner = SpecSearch::Negate(Box::new(search));
    assert(eval_search(db, piece_id, piece, inner) == match eval_search(db, piece_id, piece, search) {
        Some(v) => Some(!v),
        None => None,
    });
}

/// Every piece is found by a search or by its negation; only the pieces the
/// search gives no verdict on are found by both.
pub proof fn law_negation_complements(db: DbV2, search: SpecSearch)
    ensures
        passing_pieces(db, search).union(
            passing_pieces(db, SpecSearch::Negate(Box::new(search))),
        ) == db.pieces.rows().dom(),
        passing_pieces(db, search).intersect(
            passing_pieces(db, SpecSearch::Negate(Box::new(search))),
        ) == Set::new(
            |p: usize|
                db.pieces.rows().contains_key(p) && eval_search(
                    db,
                    p,
                    db.pieces.rows()[p],
                    search,
                ) is None,
        ),
{
    let neg = SpecSearch::Negate(Box::new(search));
    assert(passing_pieces(db, search).union(passing_pieces(db, neg)) =~= db.pieces.rows().dom());
    assert(passing_pieces(db, search).intersect(passing_pieces(db, neg)) =~= Set::new(
        |p: usize|
            db.pieces.rows().contains_key(p) && eval_search(db, p, db.pieces.rows()[p], search) is None,
    ));
}

/// Negating a search twice finds what the search finds.
pub proof fn law_double_negation(db: DbV2, search: SpecSearch)
    ensures
        passing_pieces(db, SpecSearch::Negate(Box::new(SpecSearch::Negate(Box::new(search)))))
            == passing_pieces(db, search),
{
    let inner = SpecSearch::Negate(Box::new(search));
    let outer = SpecSearch::Negate(Box::new(inner));
    assert forall|p: usize| db.pieces.rows().contains_key(p) implies eval_search(
        db,
        p,
        db.pieces.rows()[p],
        outer,
    ) == eval_search(db, p, db.pieces.rows()[p], search) by {
        let piece = db.pieces.rows()[p];
        assert(eval_search(db, p, piece, inner) == match eval_search(db, p, piece, search) {
            Some(v) => Some(!v),
            None => None,
        });
    }
    assert(passing_pieces(db, outer) =~= passing_pieces(db, search));
}

/// Removing the row that was just inserted gives the table back the rows it
/// had.
pub proof fn law_remove_undoes_insert<T>(
    before: Table<T>,
    inserted: Table<T>,
    removed: Table<T>,
    id: usize,
    row: T,
)
    requires
        !before.rows().contains_key(id),
        inserted.rows() == before.rows().insert(id, row),
        removed.rows() == inserted.rows().remove(id),
    ensures
        removed.rows() == before.rows(),
{
    assert(removed.rows() =~= before.rows());
}

/// Removing a row and then inserting one (each as `Table::remove` and
/// `Table::insert` leave the table) puts the new row under the freed id: the
/// table has the same ids as before, with the removed row replaced.
pub proof fn law_freed_id_is_reused_next<T>(
    before: Table<T>,
    freed: usize,
    removed: Table<T>,
    row: T,
    new_id: usize,
    inserted: Table<T>,
)
    requires
        before.rows().contains_key(freed),
        removed.rows() == before.rows().remove(freed),
        removed.next_id() == freed,
        new_id == removed.next_id(),
        inserted.rows() == removed.rows().insert(new_id, row),
    ensures
        new_id == freed,
        inserted.rows() == before.rows().insert(freed, row),
        inserted.rows().dom() == before.rows().dom(),
{
    assert(inserted.rows() =~= before.rows().insert(freed, row));
    assert(inserted.rows().dom() =~= before.rows().dom());
}

/// Once a piece is deleted, no blob and no tag is related to it any more.
/// (Deleting an id that has no row changes nothing, so relations made to
/// such an id stay.)
pub proof fn law_deleted_piece_leaves_no_relation(
    before: DbV2,
    after: DbV2,
    piece: PieceId,
    done: bool,
)
    requires
        piece.deleted(before, after, done),
    ensures
        !after.pieces.rows().contains_key(piece.0),
        done ==> forall|pair: (usize, usize)|
            #[trigger] after.media@.contains(pair) ==> pair.0 != piece.0,
        done ==> forall|pair: (usize, usize)|
            #[trigger] after.piece_tags@.contains(pair) ==> pair.0 != piece.0,
{
}

/// Taking a tag off a piece right after putting it on gives the piece back
/// the tags it had, when it did not carry the tag before.
pub proof fn law_remove_tag_undoes_attach_tag(
    before: Set<(usize, usize)>,
    attached: Set<(usize, usize)>,
    removed: Set<(usize, usize)>,
    pair: (usize, usize),
)
    requires
        !before.contains(pair),
        attached == before.insert(pair),
        removed == attached.remove(pair),
    ensures
        removed == before,
{
    assert(removed =~= before);
}

/// Undoing an edit right after applying it leaves the edit as applying it
/// left it and gives the target a copy of a copy of its old value; applying
/// the edit again puts a copy of its new value back.  Where copies are exact
/// (as they are for every value a piece's edits work on, see
/// [`law_piece_fields_copy_exactly`]), undo gives back exactly the old value
/// and applying again gives exactly what the first apply gave.
pub proof fn law_undo_reverts_apply<T: Clone>(
    command: BasicCommand<T>,
    target: T,
    applied_command: BasicCommand<T>,
    applied_target: T,
    undone_command: BasicCommand<T>,
    undone_target: T,
    reapplied_command: BasicCommand<T>,
    reapplied_target: T,
)
    requires
        applied(command, target, applied_command, applied_target),
        undone(applied_command, applied_target, undone_command, undone_target),
        applied(undone_command, undone_target, reapplied_command, reapplied_target),
    ensures
        undone_command == applied_command,
        exists|f: T|
            vstd::pervasive::cloned::<T>(target, f) && vstd::pervasive::cloned::<T>(
                f,
                undone_target,
            ),
        vstd::pervasive::cloned::<T>(command.to, reapplied_target),
        reapplied_command.to == command.to,
        clone_is_exact::<T>() ==> undone_target == target && reapplied_target == applied_target
            && reapplied_command == applied_command,
{
    let f = applied_command.from->0;
    assert(vstd::pervasive::cloned::<T>(target, f));
    assert(vstd::pervasive::cloned::<T>(f, undone_target));
}

/// The values a piece's edits work on (its name, source, media type, date
/// added and prices) are copied exactly, so undoing an edit of a piece gives
/// back exactly the value it replaced.
pub proof fn law_piece_fields_copy_exactly()
    ensures
        clone_is_exact::<String>(),
        clone_is_exact::<Option<i64>>(),
        clone_is_exact::<Date>(),
        clone_is_exact::<SourceType>(),
        clone_is_exact::<MediaType>(),
{
    assert forall|a: String, b: String| #[trigger] vstd::pervasive::cloned::<String>(a, b) implies a == b by {}
    assert forall|a: Option<i64>, b: Option<i64>| #[trigger] vstd::pervasive::cloned::<Option<i64>>(a, b) implies a == b by {
        if a is Some {
            assert(vstd::pervasive::cloned::<i64>(a->0, b->0) ==> a->0 == b->0);
        }
    }
    assert forall|a: Date, b: Date| #[trigger] vstd::pervasive::cloned::<Date>(a, b) implies a == b by {}
    assert forall|a: SourceType, b: SourceType| #[trigger] vstd::pervasive::cloned::<SourceType>(a, b) implies a == b by {}
    assert forall|a: MediaType, b: MediaType| #[trigger] vstd::pervasive::cloned::<MediaType>(a, b) implies a == b by {}
}

/// Going back from a screen that was just opened shows the screens from
/// before it.
pub proof fn law_back_undoes_goto(views: Seq<GuiView>, view: GuiView)
    requires
        views.len() >= 1,
    ensures
        back_from(views.push(view)) == views,
{
    assert(views.push(view).drop_last() =~= views);
}

/// Drawing the screen on show and staying on it leaves the trail as it was.
pub proof fn law_unchanged_keeps_trail(history: Seq<GuiView>)
    requires
        history.len() > 0,
    ensures
        trail_after(history.drop_last(), history.last(), ViewResponse::Unchanged) == history,
{
    assert(history.drop_last().push(history.last()) =~= history);
}

/// Leaving a screen that was pushed on top of the one on show gives back the
/// trail from before the push.
pub proof fn law_pop_undoes_push(history: Seq<GuiView>, next: GuiView)
    requires
        history.len() > 0,
    ensures
        ({
            let pushed = trail_after(history.drop_last(), history.last(), ViewResponse::Push(next));
            trail_after(pushed.drop_last(), pushed.last(), ViewResponse::Pop) == history
        }),
{
    let pushed = trail_after(history.drop_last(), history.last(), ViewResponse::Push(next));
    assert(pushed.drop_last() =~= history);
}

/// The decimal notation of a number is made of the digits `0` to `9`.
proof fn lemma_decimal_digits(n: nat)
    ensures
        decimal(n).len() >= 1,
        forall|k: int|
            0 <= k < decimal(n).len() ==> 0x30 <= #[trigger] decimal(n)[k] as u32 <= 0x39,
    decreases n,
{
    if n >= 10 {
        lemma_decimal_digits(n / 10);
        let d = decimal(n / 10);
        assert forall|k: int| 0 <= k < decimal(n).len() implies 0x30 <= #[trigger] decimal(
            n,
        )[k] as u32 <= 0x39 by {
            if k < d.len() {
                assert(decimal(n)[k] == d[k]);
            }
        }
    }
}

/// Reading the decimal notation of a number gives the number.
proof fn lemma_decimal_value(n: nat)
    ensures
        digits_value(decimal(n)) == n,
    decreases n,
{
    if n < 10 {
        let d = decimal(n);
        assert(d.drop_last() =~= Seq::<char>::empty());
        assert(digits_value(d.drop_last()) == 0);
    } else {
        lemma_decimal_value(n / 10);
        let d = decimal(n);
        assert(d.drop_last() =~= decimal(n / 10));
        assert(d.last() == digit_char(n % 10));
        assert(n == (n / 10) * 10 + n % 10) by (nonlinear_arith);
    }
}

/// Different blobs are stored in files with different names, whatever their
/// file names are.
pub proof fn law_storage_names_are_distinct(
    id: usize,
    file_name: Seq<char>,
    other_id: usize,
    other_file_name: Seq<char>,
)
    requires
        id != other_id,
    ensures
        storage_name_of(id, file_name) != storage_name_of(other_id, other_file_name),
{
    let a = storage_name_of(id, file_name);
    let b = storage_name_of(other_id, other_file_name);
    let da = decimal(id as nat);
    let db = decimal(other_id as nat);
    lemma_decimal_digits(id as nat);
    lemma_decimal_digits(other_id as nat);
    lemma_decimal_value(id as nat);
    lemma_decimal_value(other_id as nat);
    if a == b {
        assert(a[0] == '[');
        if da.len() < db.len() {
            assert(a[1 + da.len() as int] == ']');
            assert(b[1 + da.len() as int] == db[da.len() as int]);
            assert(false);
        } else if db.len() < da.len() {
            assert(b[1 + db.len() as int] == ']');
            assert(a[1 + db.len() as int] == da[db.len() as int]);
            assert(false);
        } else {
            assert forall|k: int| 0 <= k < da.len() implies da[k] == db[k] by {
                assert(a[1 + k] == da[k]);
                assert(b[1 + k] == db[k]);
            }
            assert(da =~= db);
        }
    }
}

/// The text a price field shows reads back as the same price.
pub proof fn law_price_text_reads_back(price: Option<i64>)
    ensures
        spec_parse_price(price_text_of(price)) == price,
{
    if let Some(v) = price {
        let t = signed_decimal(v as int);
        if v < 0 {
            let n = (-v) as nat;
            lemma_decimal_digits(n);
            lemma_decimal_value(n);
            assert(t.drop_first() =~= decimal(n));
            assert(all_digits(decimal(n)));
        } else {
            let n = v as nat;
            lemma_decimal_digits(n);
            lemma_decimal_value(n);
            assert(0x30 <= t[0] as u32 <= 0x39);
            assert(all_digits(t));
        }
    }
}

/// Writing a table out as its rows in increasing order of id, and building a
/// table from what was written, gives back the same rows.
pub proof fn law_rows_survive_saving<T>(rows: Map<usize, T>, pairs: Seq<(usize, T)>)
    requires
        rows.dom().finite(),
        lists_in_order(pairs.map_values(|p: (usize, T)| p.0), rows.dom()),
        forall|i: int| 0 <= i < pairs.len() ==> #[trigger] pairs[i].1 == rows[pairs[i].0],
    ensures
        ids_increase(pairs),
        rows_of_pairs(pairs) == rows,
    decreases pairs.len(),
{
    let ids = pairs.map_values(|p: (usize, T)| p.0);
    assert forall|i: int, j: int| 0 <= i < j < pairs.len() implies pairs[i].0 < pairs[j].0 by {
        assert(ids[i] < ids[j]);
    }
    if pairs.len() == 0 {
        assert forall|k: usize| !rows.dom().contains(k) by {
            if rows.dom().contains(k) {
                assert(ids.contains(k));
            }
        }
        assert(rows =~= Map::empty());
    } else {
        let last = pairs.last();
        let rest = pairs.drop_last();
        let smaller = rows.remove(last.0);
        let rest_ids = rest.map_values(|p: (usize, T)| p.0);
        assert(ids[pairs.len() - 1] == last.0);
        assert(rows.dom().contains(last.0));
        assert forall|x: usize| smaller.dom().contains(x) implies rest_ids.contains(x) by {
            assert(ids.contains(x));
            let i = choose|i: int| 0 <= i < ids.len() && ids[i] == x;
            assert(i != pairs.len() - 1);
            assert(rest_ids[i] == x);
        }
        assert forall|i: int| 0 <= i < rest_ids.len() implies smaller.dom().contains(#[trigger] rest_ids[i]) by {
            assert(rest_ids[i] == ids[i]);
            assert(ids[i] < ids[pairs.len() - 1]);
        }
        assert forall|i: int, j: int| 0 <= i < j < rest_ids.len() implies rest_ids[i] < rest_ids[j] by {
            assert(rest_ids[i] == ids[i] && rest_ids[j] == ids[j]);
        }
        assert forall|i: int| 0 <= i < rest.len() implies #[trigger] rest[i].1 == smaller[rest[i].0] by {
            assert(rest[i] == pairs[i]);
            assert(ids[i] < ids[pairs.len() - 1]);
        }
        law_rows_survive_saving(smaller, rest);
        assert(rows_of_pairs(pairs) =~= rows);
    }
}

/// Putting rows in order keeps every row and adds none: each position shows
/// up exactly once.
pub proof fn law_order_is_a_permutation(keys: Seq<i128>, order: Seq<usize>)
    requires
        is_stable_order(keys, order),
    ensures
        order.no_duplicates(),
        forall|p: usize| p < keys.len() ==> #[trigger] order.contains(p),
{
    broadcast use vstd::seq_lib::seq_to_set_is_finite;

    assert forall|i: int, j: int| 0 <= i < order.len() && 0 <= j < order.len() && i != j implies order[i] != order[j] by {
        if i < j {
            assert(goes_before(keys, order[i] as int, order[j] as int));
        } else {
            assert(goes_before(keys, order[j] as int, order[i] as int));
        }
    }
    let ints = order.map_values(|x: usize| x as int);
    assert(ints.no_duplicates()) by {
        assert forall|i: int, j: int| 0 <= i < ints.len() && 0 <= j < ints.len() && i != j implies ints[i] != ints[j] by {
            assert(order[i] != order[j]);
        }
    }
    ints.unique_seq_to_set();
    let range = vstd::set_lib::set_int_range(0, keys.len() as int);
    vstd::set_lib::lemma_int_range(0, keys.len() as int);
    assert(ints.to_set().subset_of(range)) by {
        assert forall|x: int| ints.to_set().contains(x) implies range.contains(x) by {
            let i = choose|i: int| 0 <= i < ints.len() && ints[i] == x;
            assert(order[i] < keys.len());
        }
    }
    vstd::set_lib::lemma_subset_equality(ints.to_set(), range);
    assert forall|p: usize| p < keys.len() implies #[trigger] order.contains(p) by {
        assert(range.contains(p as int));
        assert(ints.to_set().contains(p as int));
        let i = choose|i: int| 0 <= i < ints.len() && ints[i] == p as int;
        assert(order[i] == p);
    }
}

/// Pieces put in order of the date they were added come in calendar order.
pub proof fn law_date_order_is_calendar_order(
    db: DbV2,
    ids: Seq<PieceId>,
    order: Seq<usize>,
    i: int,
    j: int,
)
    requires
        is_stable_order(date_ranks(db, ids), order),
        0 <= i < j < order.len(),
    ensures
        db.pieces.rows()[ids[order[i] as int].0].added.spec_le(
            db.pieces.rows()[ids[order[j] as int].0].added,
        ),
{
    let a = db.pieces.rows()[ids[order[i] as int].0].added;
    let b = db.pieces.rows()[ids[order[j] as int].0].added;
    assert(goes_before(date_ranks(db, ids), order[i] as int, order[j] as int));
    assert(0 <= a.month && a.month < 0x1_0000_0000 && 0 <= a.day && a.day < 0x1_0000_0000);
    assert(date_rank(a) == date_rank(a) as i128) by (nonlinear_arith)
        requires
            i32::MIN <= a.year <= i32::MAX,
            0 <= a.month < 0x1_0000_0000,
            0 <= a.day < 0x1_0000_0000,
            date_rank(a) == a.year * 0x1_0000_0000_0000_0000 + a.month * 0x1_0000_0000 + a.day,
    ;
    assert(date_rank(b) == date_rank(b) as i128) by (nonlinear_arith)
        requires
            i32::MIN <= b.year <= i32::MAX,
            0 <= b.month < 0x1_0000_0000,
            0 <= b.day < 0x1_0000_0000,
            date_rank(b) == b.year * 0x1_0000_0000_0000_0000 + b.month * 0x1_0000_0000 + b.day,
    ;
    lemma_date_rank_orders(a, b);
}

/// An image is loaded once however often it is asked for: after a request,
/// asking again is not fresh, unless the load failed in between.
pub proof fn law_second_request_is_not_fresh<I>(
    first: ImageCache<I>,
    second: ImageCache<I>,
    blob: usize,
    thumbnail: bool,
    fresh: bool,
)
    requires
        requests(first, thumbnail).contains(blob),
        requests(second, thumbnail) == requests(first, thumbnail),
        fresh == !requests(second, thumbnail).contains(blob),
    ensures
        !fresh,
{
}

/// Deleting a piece keeps its blobs in the database.
pub proof fn law_deleting_piece_keeps_blobs(before: DbV2, after: DbV2, piece: PieceId, done: bool)
    requires
        piece.deleted(before, after, done),
    ensures
        after.blobs == before.blobs,
{
}

/// Deleting a blob takes it off every piece.  (Deleting an id that has no
/// row changes nothing, so relations made to such an id stay.)
pub proof fn law_deleted_blob_leaves_its_pieces(before: DbV2, after: DbV2, blob: BlobId, done: bool)
    requires
        blob.deleted(before, after, done),
    ensures
        !after.blobs.rows().contains_key(blob.0),
        done ==> forall|pair: (usize, usize)|
            #[trigger] after.media@.contains(pair) ==> pair.1 != blob.0,
{
}

/// Cleaning keeps exactly the blobs that belong to some piece.
pub proof fn law_cleaning_keeps_blobs_of_pieces(
    rows: Map<usize, crate::entities::Blob>,
    media: Set<(usize, usize)>,
    b: usize,
)
    ensures
        blobs_in_pieces(rows, media).contains_key(b) <==> rows.contains_key(b) && in_some_piece(
            media,
            b,
        ),
{
}

/// A blob's stored file name changes exactly when its file name does.
pub proof fn law_storage_name_follows_file_name(id: usize, old_name: Seq<char>, new_name: Seq<char>)
    ensures
        (storage_name_of(id, old_name) == storage_name_of(id, new_name)) <==> (old_name == new_name),
{
    let prefix = seq!['['] + decimal(id as nat) + seq![']', ' '];
    assert(storage_name_of(id, old_name) == prefix + old_name);
    assert(storage_name_of(id, new_name) == prefix + new_name);
    if prefix + old_name == prefix + new_name {
        assert((prefix + old_name).skip(prefix.len() as int) =~= old_name);
        assert((prefix + new_name).skip(prefix.len() as int) =~= new_name);
    }
}

/// A row inserted into a table is read back under the id the insertion gave,
/// and the other rows are untouched.
pub proof fn law_insert_then_read<T>(before: Table<T>, after: Table<T>, id: usize, row: T, other: usize)
    requires
        !before.rows().contains_key(id),
        after.rows() == before.rows().insert(id, row),
        other != id,
    ensures
        after.rows().contains_key(id),
        after.rows()[id] == row,
        after.rows().contains_key(other) == before.rows().contains_key(other),
        before.rows().contains_key(other) ==> after.rows()[other] == before.rows()[other],
{
}

/// Tagging a piece makes the tag one of the piece's tags and the piece one of
/// the tag's pieces.
pub proof fn law_attached_tag_is_listed(before: Set<(usize, usize)>, piece: usize, tag: usize)
    ensures
        rights_of(before.insert((piece, tag)), piece).contains(tag),
        lefts_of(before.insert((piece, tag)), tag).contains(piece),
{
}

/// Every conjunction and disjunction in a search has at least two operands.
pub open spec fn well_shaped(x: SpecSearch) -> bool
    decreases x,
{
    match x {
        SpecSearch::Or(cs) => cs.len() >= 2 && forall|k: int| 0 <= k < cs.len() ==> well_shaped(cs[k]),
        SpecSearch::And(cs) => cs.len() >= 2 && forall|k: int| 0 <= k < cs.len() ==> well_shaped(cs[k]),
        SpecSearch::Negate(b) => well_shaped(*b),
        SpecSearch::Test(_) => true,
    }
}

/// A rule's result, if any, is well shaped.
pub open spec fn gives_shaped(r: Option<(int, SpecSearch)>) -> bool {
    r matches Some((j, v)) ==> well_shaped(v)
}

/// Every search of a list is well shaped.
pub open spec fn all_shaped(v: Seq<SpecSearch>) -> bool {
    forall|k: int| 0 <= k < v.len() ==> well_shaped(#[trigger] v[k])
}

/// Every rule of the search grammar gives well-shaped searches.
proof fn lemma_search_shape(s: Seq<char>, i: int)
    requires
        0 <= i <= s.len(),
    ensures
        gives_shaped(spec_test(s, i)),
        gives_shaped(spec_negate(s, i)),
        gives_shaped(spec_paren(s, i)),
        gives_shaped(spec_unary(s, i)),
        gives_shaped(spec_or(s, i)),
        gives_shaped(spec_and_operand(s, i)),
        gives_shaped(spec_and(s, i)),
        gives_shaped(spec_search(s, i)),
        all_shaped(spec_or_rest(s, i).1),
        all_shaped(spec_and_rest(s, i).1),
    decreases s.len() - i,
{
    lemma_search_progress(s, i);
    if i + 1 <= s.len() {
        lemma_search_shape(s, i + 1);
    }
    if has_char(s, i, '|') {
        if let Some((m, v)) = spec_unary(s, i + 1) {
            if i < m <= s.len() {
                lemma_search_shape(s, m);
                let rest = spec_or_rest(s, m).1;
                assert(all_shaped(seq![v] + rest)) by {
                    assert forall|k: int| 0 <= k < (seq![v] + rest).len() implies well_shaped(#[trigger] (seq![v] + rest)[k]) by {
                        if k > 0 {
                            assert((seq![v] + rest)[k] == rest[k - 1]);
                        }
                    }
                }
            }
        }
    }
    lemma_blank_end_bounds(s, i);
    let k = blank_end(s, i);
    if i < k <= s.len() {
        lemma_search_shape(s, k);
        if let Some((m, v)) = spec_and_operand(s, k) {
            if k < m <= s.len() {
                lemma_search_shape(s, m);
                let rest = spec_and_rest(s, m).1;
                assert(all_shaped(seq![v] + rest)) by {
                    assert forall|q: int| 0 <= q < (seq![v] + rest).len() implies well_shaped(#[trigger] (seq![v] + rest)[q]) by {
                        if q > 0 {
                            assert((seq![v] + rest)[q] == rest[q - 1]);
                        }
                    }
                }
            }
        }
    }
    if let Some((j, v)) = spec_unary(s, i) {
        if i < j <= s.len() {
            lemma_search_shape(s, j);
            let rest = spec_or_rest(s, j).1;
            let all = seq![v] + rest;
            assert forall|q: int| 0 <= q < all.len() implies well_shaped(#[trigger] all[q]) by {
                if q > 0 {
                    assert(all[q] == rest[q - 1]);
                }
            }
        }
    }
    if let Some((j, v)) = spec_and_operand(s, i) {
        if i < j <= s.len() {
            lemma_search_shape(s, j);
            let rest = spec_and_rest(s, j).1;
            let all = seq![v] + rest;
            assert forall|q: int| 0 <= q < all.len() implies well_shaped(#[trigger] all[q]) by {
                if q > 0 {
                    assert(all[q] == rest[q - 1]);
                }
            }
        }
    }
}

/// A conjunction that parses has at least two operands, each well shaped;
/// it reads at least one character, and what is left unread is the end of
/// the input.
pub proof fn law_conjunction_has_two_operands(input: Seq<char>)
    ensures
        rest_and_value(input, spec_and(input, 0)) matches Some((rest, v)) ==> {
            &&& v matches SpecSearch::And(cs) && cs.len() >= 2
            &&& well_shaped(v)
            &&& rest.len() < input.len()
            &&& rest == input.subrange(input.len() - rest.len(), input.len() as int)
        },
{
    lemma_search_progress(input, 0);
    lemma_search_shape(input, 0);
}

/// Every conjunction and disjunction a parsed search holds has at least two
/// operands.
pub proof fn law_parsed_search_is_well_shaped(input: Seq<char>)
    ensures
        gives_shaped(spec_search(input, 0)),
{
    lemma_search_shape(input, 0);
}

/// A character that a tag name typed in the search bar may hold: anything
/// but Unicode white space and the operators `: ( ) ! | > = <`.
pub open spec fn plain_word_char(c: char) -> bool {
    !is_white_space(c) && c != ':' && c != '(' && c != ')' && c != '!' && c != '|' && c != '>'
        && c != '=' && c != '<'
}

/// From any position of a text of plain word characters, the run of word
/// characters reaches the end of the text.
proof fn lemma_plain_run_reaches_end(t: Seq<char>, i: int)
    requires
        0 <= i <= t.len(),
        forall|k: int| 0 <= k < t.len() ==> plain_word_char(#[trigger] t[k]),
    ensures
        item_end(t, i) == t.len(),
    decreases t.len() - i,
{
    if i < t.len() {
        assert(plain_word_char(t[i]));
        lemma_plain_run_reaches_end(t, i + 1);
    }
}

/// A search typed as one word made of plain word characters (hyphens, dots,
/// digits, letters of any script, ...) searches for the tag of exactly that
/// name, and reads the whole text.
pub proof fn law_plain_word_is_a_tag_search(t: Seq<char>)
    requires
        t.len() > 0,
        forall|k: int| 0 <= k < t.len() ==> plain_word_char(#[trigger] t[k]),
    ensures
        rest_and_value(t, spec_search(t, 0)) == Some(
            (Seq::<char>::empty(), SpecSearch::Test(SpecCondition::Tag(t))),
        ),
{
    let n = t.len() as int;
    lemma_plain_run_reaches_end(t, 0);
    assert(plain_word_char(t[0]));
    assert(!has_char(t, n, ':'));
    assert(spec_whole(t, 0) is None);
    assert(spec_price(t, 0) is None);
    assert(t.subrange(0, n) =~= t);
    assert(spec_test(t, 0) == Some((n, SpecSearch::Test(SpecCondition::Tag(t)))));
    assert(spec_negate(t, 0) is None);
    assert(spec_paren(t, 0) is None);
    assert(spec_unary(t, 0) == spec_test(t, 0));
    assert(spec_or_rest(t, n).1.len() == 0);
    assert(spec_or(t, 0) is None);
    assert(spec_and_operand(t, 0) == spec_test(t, 0));
    assert(blank_end(t, n) == n);
    assert(spec_and_rest(t, n).1.len() == 0);
    assert(spec_and(t, 0) is None);
    assert(spec_search(t, 0) == spec_test(t, 0));
    assert(t.subrange(n, n) =~= Seq::<char>::empty());
}

/// A `category:tag` condition finds exactly the pieces that carry the tag of
/// that name in that category (the one with the lowest id, should there be
/// several): tags of the same name in other categories play no part.
pub proof fn law_category_tag_condition(
    db: DbV2,
    piece_id: usize,
    piece: Piece,
    category: Option<Seq<char>>,
    name: Seq<char>,
    t: usize,
)
    requires
        db.tags.rows().contains_key(t),
        db.tags.rows()[t].name@ == name,
        category_name_of(db, t) == category,
        forall|j: usize|
            j < t && db.tags.rows().contains_key(j) && db.tags.rows()[j].name@ == name
                ==> category_name_of(db, j) != category,
    ensures
        eval_condition(db, piece_id, piece, SpecCondition::TagWithCategory(category, name))
            == Some(db.piece_tags@.contains((piece_id, t))),
{
    assert(is_first_in_category(db, category, name, t));
    let c = choose|c: usize| is_first_in_category(db, category, name, c);
    if c < t {
        assert(tag_in_category(db, category, name, c));
    } else if t < c {
        assert(tag_in_category(db, category, name, t));
    }
}

/// A `category:tag` condition naming no tag of that name in that category
/// gives no verdict.
pub proof fn law_missing_category_tag_gives_no_verdict(
    db: DbV2,
    piece_id: usize,
    piece: Piece,
    category: Option<Seq<char>>,
    name: Seq<char>,
)
    requires
        forall|j: usize|
            db.tags.rows().contains_key(j) && db.tags.rows()[j].name@ == name
                ==> category_name_of(db, j) != category,
    ensures
        eval_condition(db, piece_id, piece, SpecCondition::TagWithCategory(category, name)) is None,
{
    if exists|c: usize| is_first_in_category(db, category, name, c) {
        let c = choose|c: usize| is_first_in_category(db, category, name, c);
        assert(tag_in_category(db, category, name, c));
    }
}

/// A bare tag condition finds exactly the pieces that carry the tag of that
/// name (the one with the lowest id, should there be several).
pub proof fn law_tag_condition(db: DbV2, piece_id: usize, piece: Piece, name: Seq<char>, t: usize)
    requires
        db.tags.rows().contains_key(t),
        db.tags.rows()[t].name@ == name,
        forall|j: usize| j < t && db.tags.rows().contains_key(j) ==> db.tags.rows()[j].name@ != name,
    ensures
        eval_condition(db, piece_id, piece, SpecCondition::Tag(name)) == Some(
            db.piece_tags@.contains((piece_id, t)),
        ),
{
    assert(is_first_named(db, name, t));
    let c = choose|c: usize| is_first_named(db, name, c);
    if c < t {
        assert(tag_named(db, name, c));
    } else if t < c {
        assert(tag_named(db, name, t));
    }
}

/// Base price `a` comes no later than base price `b` in increasing order:
/// no price comes first, then prices by amount.
pub open spec fn price_not_after(a: Option<i64>, b: Option<i64>) -> bool {
    match (a, b) {
        (Some(x), Some(y)) => x <= y,
        (Some(_), None) => false,
        _ => true,
    }
}

/// The search screen sorted by the Price column orders the pieces found by
/// their base price alone, whatever their tips: in increasing order (no
/// price first) when ascending, in decreasing order when not.
pub proof fn law_price_column_orders_by_base_price(
    search: Search,
    db: DbV2,
    shown: Seq<PieceId>,
    order: Seq<usize>,
    i: int,
    j: int,
)
    requires
        search.sorted_by == SortedBy::Price,
        shown_in_order(shown, search, db, order),
        0 <= i < j < shown.len(),
    ensures
        search.ascending ==> price_not_after(
            db.pieces.rows()[shown[i].0].base_price,
            db.pieces.rows()[shown[j].0].base_price,
        ),
        !search.ascending ==> price_not_after(
            db.pieces.rows()[shown[j].0].base_price,
            db.pieces.rows()[shown[i].0].base_price,
        ),
{
    let found = search.query_result@;
    let keys = ranks(db, found, SortedBy::Price);
    let n = order.len() as int;
    let (x, y) = if search.ascending {
        (i, j)
    } else {
        (n - 1 - j, n - 1 - i)
    };
    assert(goes_before(keys, order[x] as int, order[y] as int));
    let first = if search.ascending { shown[i] } else { shown[j] };
    let second = if search.ascending { shown[j] } else { shown[i] };
    assert(first == found[order[x] as int]);
    assert(second == found[order[y] as int]);
    let a = db.pieces.rows()[first.0].base_price;
    let b = db.pieces.rows()[second.0].base_price;
    assert(keys[order[x] as int] == price_rank(a) as i128);
    assert(keys[order[y] as int] == price_rank(b) as i128);
    assert(price_rank(a) as i128 == price_rank(a));
    assert(price_rank(b) as i128 == price_rank(b));
}

/// The search screen sorted by the date-added column shows the newest pieces
/// first when ascending, and the oldest first when not.
pub proof fn law_added_column_orders_by_date(
    search: Search,
    db: DbV2,
    shown: Seq<PieceId>,
    order: Seq<usize>,
    i: int,
    j: int,
)
    requires
        search.sorted_by == SortedBy::Added,
        shown_in_order(shown, search, db, order),
        0 <= i < j < shown.len(),
    ensures
        search.ascending ==> db.pieces.rows()[shown[j].0].added.spec_le(
            db.pieces.rows()[shown[i].0].added,
        ),
        !search.ascending ==> db.pieces.rows()[shown[i].0].added.spec_le(
            db.pieces.rows()[shown[j].0].added,
        ),
{
    let found = search.query_result@;
    let keys = ranks(db, found, SortedBy::Added);
    let n = order.len() as int;
    let (x, y) = if search.ascending {
        (n - 1 - j, n - 1 - i)
    } else {
        (i, j)
    };
    assert(goes_before(keys, order[x] as int, order[y] as int));
    let first = if search.ascending { shown[j] } else { shown[i] };
    let second = if search.ascending { shown[i] } else { shown[j] };
    assert(first == found[order[x] as int]);
    assert(second == found[order[y] as int]);
    let a = db.pieces.rows()[first.0].added;
    let b = db.pieces.rows()[second.0].added;
    assert(keys[order[x] as int] == date_rank(a) as i128);
    assert(keys[order[y] as int] == date_rank(b) as i128);
    assert(0 <= a.month < 0x1_0000_0000 && 0 <= a.day < 0x1_0000_0000);
    assert(0 <= b.month < 0x1_0000_0000 && 0 <= b.day < 0x1_0000_0000);
    assert(date_rank(a) == date_rank(a) as i128) by (nonlinear_arith)
        requires
            i32::MIN <= a.year <= i32::MAX,
            0 <= a.month < 0x1_0000_0000,
            0 <= a.day < 0x1_0000_0000,
            date_rank(a) == a.year * 0x1_0000_0000_0000_0000 + a.month * 0x1_0000_0000 + a.day,
    ;
    assert(date_rank(b) == date_rank(b) as i128) by (nonlinear_arith)
        requires
            i32::MIN <= b.year <= i32::MAX,
            0 <= b.month < 0x1_0000_0000,
            0 <= b.day < 0x1_0000_0000,
            date_rank(b) == b.year * 0x1_0000_0000_0000_0000 + b.month * 0x1_0000_0000 + b.day,
    ;
    lemma_date_rank_orders(a, b);
}

/// Deleting a tag that exists takes it off every piece and out of its
/// category, and keeps every other piece/tag pair; deleting one that does
/// not exist changes nothing.
pub proof fn law_deleted_tag_leaves_every_piece(before: DbV2, after: DbV2, tag: TagId, done: bool)
    requires
        tag.deleted(before, after, done),
    ensures
        done == before.tags.rows().contains_key(tag.0),
        !after.tags.rows().contains_key(tag.0),
        done ==> forall|pair: (usize, usize)|
            #[trigger] after.piece_tags@.contains(pair) ==> pair.1 != tag.0,
        done ==> forall|pair: (usize, usize)|
            pair.1 != tag.0 ==> (#[trigger] after.piece_tags@.contains(pair)
                <==> before.piece_tags@.contains(pair)),
        done ==> !after.tag_category@.contains_key(tag.0),
        done ==> after.pieces == before.pieces && after.media@ == before.media@,
        !done ==> after.piece_tags@ == before.piece_tags@ && after.tags == before.tags,
{
}

/// Deleting a category that exists takes every tag out of it and keeps the
/// category of every other tag; its tags themselves stay.
pub proof fn law_deleted_category_leaves_its_tags(
    before: DbV2,
    after: DbV2,
    category: CategoryId,
    done: bool,
)
    requires
        category.deleted(before, after, done),
    ensures
        done == before.categories.rows().contains_key(category.0),
        !after.categories.rows().contains_key(category.0),
        done ==> forall|t: usize|
            #[trigger] after.tag_category@.contains_key(t) ==> after.tag_category@[t] != category.0,
        done ==> forall|t: usize|
            before.tag_category@.contains_key(t) && before.tag_category@[t] != category.0
                ==> #[trigger] after.tag_category@.contains_key(t) && after.tag_category@[t]
                == before.tag_category@[t],
        done ==> after.tags == before.tags && after.piece_tags@ == before.piece_tags@,
{
}

/// Deleting a piece that exists takes every blob and tag off it and keeps
/// every pair of the other pieces.
pub proof fn law_deleted_piece_keeps_other_relations(
    before: DbV2,
    after: DbV2,
    piece: PieceId,
    done: bool,
)
    requires
        piece.deleted(before, after, done),
    ensures
        done ==> forall|pair: (usize, usize)|
            pair.0 != piece.0 ==> (#[trigger] after.media@.contains(pair) <==> before.media@.contains(
                pair,
            )),
        done ==> forall|pair: (usize, usize)|
            pair.0 != piece.0 ==> (#[trigger] after.piece_tags@.contains(pair)
                <==> before.piece_tags@.contains(pair)),
{
}

/// Deleting a blob that exists takes it off every piece and keeps every
/// other piece/blob pair.
pub proof fn law_deleted_blob_keeps_other_pairs(before: DbV2, after: DbV2, blob: BlobId, done: bool)
    requires
        blob.deleted(before, after, done),
    ensures
        done ==> forall|pair: (usize, usize)|
            pair.1 != blob.0 ==> (#[trigger] after.media@.contains(pair) <==> before.media@.contains(
                pair,
            )),
{
}

/// Upgrading a first-version database keeps every piece under its id with
/// its name (now the description), the date it was added, its base price and
/// its tip, and gives it no external id.
pub proof fn law_upgrade_keeps_pieces(value: DbV1, db: DbV2, k: usize)
    requires
        db.pieces.rows().dom() == value.pieces.rows().dom(),
        forall|id: usize| #[trigger]
            db.pieces.rows().contains_key(id) ==> db.pieces.rows()[id] == upgraded(
                value.pieces.rows()[id],
            ),
        value.pieces.rows().contains_key(k),
    ensures
        db.pieces.rows().contains_key(k),
        db.pieces.rows()[k].base_price == value.pieces.rows()[k].base_price,
        db.pieces.rows()[k].tip_price == value.pieces.rows()[k].tip_price,
        db.pieces.rows()[k].added == value.pieces.rows()[k].added,
        db.pieces.rows()[k].description == value.pieces.rows()[k].name,
        db.pieces.rows()[k].external_id is None,
{
    assert(db.pieces.rows().contains_key(k));
}

/// The search screen sorted by the Name column orders the pieces found by
/// their descriptions in lowercase, in the order of Rust's `str`: increasing
/// when ascending, decreasing when not.
pub proof fn law_name_column_orders_by_lowercase_name(
    search: Search,
    db: DbV2,
    shown: Seq<PieceId>,
    order: Seq<usize>,
    i: int,
    j: int,
)
    requires
        search.sorted_by == SortedBy::Name,
        shown_in_order(shown, search, db, order),
        0 <= i < j < shown.len(),
    ensures
        ({
            let a = lowercase(db.pieces.rows()[shown[i].0].description@);
            let b = lowercase(db.pieces.rows()[shown[j].0].description@);
            &&& search.ascending ==> a == b || text_lt(a, b)
            &&& !search.ascending ==> a == b || text_lt(b, a)
        }),
{
    let found = search.query_result@;
    let keys = name_keys(db, found);
    let n = order.len() as int;
    let (x, y) = if search.ascending {
        (i, j)
    } else {
        (n - 1 - j, n - 1 - i)
    };
    assert(text_goes_before(keys, order[x] as int, order[y] as int));
    let first = if search.ascending { shown[i] } else { shown[j] };
    let second = if search.ascending { shown[j] } else { shown[i] };
    assert(first == found[order[x] as int]);
    assert(second == found[order[y] as int]);
    assert(keys[order[x] as int] == lowercase(db.pieces.rows()[first.0].description@));
    assert(keys[order[y] as int] == lowercase(db.pieces.rows()[second.0].description@));
}

/// `before:` finds the pieces added on or before the date, `after:` those
/// added on or after it: by year, then month, then day.
pub proof fn law_date_conditions(db: DbV2, piece_id: usize, piece: Piece, date: Date)
    ensures
        eval_condition(db, piece_id, piece, SpecCondition::DateAdded(DateOp::Before, date)) == Some(
            piece.added.year < date.year || (piece.added.year == date.year && (piece.added.month
                < date.month || (piece.added.month == date.month && piece.added.day <= date.day))),
        ),
        eval_condition(db, piece_id, piece, SpecCondition::DateAdded(DateOp::After, date)) == Some(
            date.year < piece.added.year || (date.year == piece.added.year && (date.month
                < piece.added.month || (date.month == piece.added.month && date.day
                <= piece.added.day))),
        ),
{
}

} // verus!
