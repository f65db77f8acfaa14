//! Operations of the database that dispatch on the kind of id or edit given.
use crate::db::{DbV2, EditBlob, EditCategory, EditPiece, EditTag};
use crate::entities::{BlobId, CategoryId, PieceId, TagId};
use crate::relation::{map_without_value, pairs_without, keys_with_value, without};
use vstd::prelude::*;

verus! {

/// Ids whose presence in a database can be asked.
pub trait IdExist<Db> {
    /// Whether the database has a row under this id.
    spec fn exists_spec(&self, db: &Db) -> bool;

    fn exists_in(self, db: &Db) -> (b: bool)
        ensures
            b == self.exists_spec(db),
    ;
}

/// Ids whose rows can be deleted from a database.
pub trait DeleteFrom<Db> {
    /// How deleting the row under this id turns `before` into `after`, with
    /// `done` telling whether there was such a row.
    spec fn deleted(&self, before: Db, after: Db, done: bool) -> bool;

    fn delete_from(self, db: &mut Db) -> (done: bool)
        ensures
            self.deleted(*old(db), *final(db), done),
    ;
}

/// Edits that can be applied to a database.
pub trait EditFrom<Db> {
    /// How applying this edit turns `before` into `after`, with `done`
    /// telling whether the row to edit was there.
    spec fn edited(&self, before: Db, after: Db, done: bool) -> bool;

    fn edit_from(self, db: &mut Db) -> (done: bool)
        ensures
            self.edited(*old(db), *final(db), done),
    ;
}

impl IdExist<DbV2> for PieceId {
    open spec fn exists_spec(&self, db: &DbV2) -> bool {
        db.pieces.rows().contains_key(self.0)
    }

    fn exists_in(self, db: &DbV2) -> (b: bool) {
        db.pieces.has(self)
    }
}

impl IdExist<DbV2> for BlobId {
    open spec fn exists_spec(&self, db: &DbV2) -> bool {
        db.blobs.rows().contains_key(self.0)
    }

    fn exists_in(self, db: &DbV2) -> (b: bool) {
        db.blobs.has(self)
    }
}

impl IdExist<DbV2> for TagId {
    open spec fn exists_spec(&self, db: &DbV2) -> bool {
        db.tags.rows().contains_key(self.0)
    }

    fn exists_in(self, db: &DbV2) -> (b: bool) {
        db.tags.has(self)
    }
}

impl IdExist<DbV2> for CategoryId {
    open spec fn exists_spec(&self, db: &DbV2) -> bool {
        db.categories.rows().contains_key(self.0)
    }

    fn exists_in(self, db: &DbV2) -> (b: bool) {
        db.categories.has(self)
    }
}

/// Nothing in the database changed.
pub open spec fn same_db(before: DbV2, after: DbV2) -> bool {
    &&& after.pieces == before.pieces
    &&& after.blobs == before.blobs
    &&& after.tags == before.tags
    &&& after.categories == before.categories
    &&& after.media@ == before.media@
    &&& after.piece_tags@ == before.piece_tags@
    &&& after.tag_category@ == before.tag_category@
}

impl DeleteFrom<DbV2> for PieceId {
    /// The piece leaves its table, and every blob and tag relation it was in.
    open spec fn deleted(&self, before: DbV2, after: DbV2, done: bool) -> bool {
        &&& done == before.pieces.rows().contains_key(self.0)
        &&& if done {
            &&& after.pieces.rows() == before.pieces.rows().remove(self.0)
            &&& after.blobs == before.blobs
            &&& after.tags == before.tags
            &&& after.categories == before.categories
            &&& after.media@ == pairs_without(before.media@, true, self.0)
            &&& after.piece_tags@ == pairs_without(before.piece_tags@, true, self.0)
            &&& after.tag_category@ == before.tag_category@
        } else {
            same_db(before, after)
        }
    }

    fn delete_from(self, db: &mut DbV2) -> (done: bool) {
        if db.pieces.has(self) {
            db.pieces.remove(self);
            db.media = without(&db.media, true, self.0);
            db.piece_tags = without(&db.piece_tags, true, self.0);
            true
        } else {
            false
        }
    }
}

impl DeleteFrom<DbV2> for BlobId {
    /// The blob leaves its table and every piece it belonged to.
    open spec fn deleted(&self, before: DbV2, after: DbV2, done: bool) -> bool {
        &&& done == before.blobs.rows().contains_key(self.0)
        &&& if done {
            &&& after.blobs.rows() == before.blobs.rows().remove(self.0)
            &&& after.pieces == before.pieces
            &&& after.tags == before.tags
            &&& after.categories == before.categories
            &&& after.media@ == pairs_without(before.media@, false, self.0)
            &&& after.piece_tags@ == before.piece_tags@
            &&& after.tag_category@ == before.tag_category@
        } else {
            same_db(before, after)
        }
    }

    fn delete_from(self, db: &mut DbV2) -> (done: bool) {
        if db.blobs.has(self) {
            db.blobs.remove(self);
            db.media = without(&db.media, false, self.0);
            true
        } else {
            false
        }
    }
}

impl DeleteFrom<DbV2> for TagId {
    /// The tag leaves its table, every piece that carried it, and its category.
    open spec fn deleted(&self, before: DbV2, after: DbV2, done: bool) -> bool {
        &&& done == before.tags.rows().contains_key(self.0)
        &&& if done {
            &&& after.tags.rows() == before.tags.rows().remove(self.0)
            &&& after.pieces == before.pieces
            &&& after.blobs == before.blobs
            &&& after.categories == before.categories
            &&& after.media@ == before.media@
            &&& after.piece_tags@ == pairs_without(before.piece_tags@, false, self.0)
            &&& after.tag_category@ == before.tag_category@.remove(self.0)
        } else {
            same_db(before, after)
        }
    }

    fn delete_from(self, db: &mut DbV2) -> (done: bool) {
        broadcast use vstd::std_specs::btree::group_btree_axioms;
        proof {
            crate::relation::lemma_ids_ordered();
        }
        if db.tags.has(self) {
            db.tags.remove(self);
            db.piece_tags = without(&db.piece_tags, false, self.0);
            db.tag_category.remove(&self.0);
            true
        } else {
            false
        }
    }
}

impl DeleteFrom<DbV2> for CategoryId {
    /// The category leaves its table, and its tags leave it.
    open spec fn deleted(&self, before: DbV2, after: DbV2, done: bool) -> bool {
        &&& done == before.categories.rows().contains_key(self.0)
        &&& if done {
            &&& after.categories.rows() == before.categories.rows().remove(self.0)
            &&& after.pieces == before.pieces
            &&& after.blobs == before.blobs
            &&& after.tags == before.tags
            &&& after.media@ == before.media@
            &&& after.piece_tags@ == before.piece_tags@
            &&& after.tag_category@ == before.tag_category@.restrict(
                before.tag_category@.dom().difference(
                    keys_with_value(before.tag_category@, self.0),
                ),
            )
        } else {
            same_db(before, after)
        }
    }

    fn delete_from(self, db: &mut DbV2) -> (done: bool) {
        if db.categories.has(self) {
            db.categories.remove(self);
            db.tag_category = map_without_value(&db.tag_category, self.0);
            true
        } else {
            false
        }
    }
}

impl EditFrom<DbV2> for EditPiece {
    /// The piece's row becomes the edit's data, if the piece is there.
    open spec fn edited(&self, before: DbV2, after: DbV2, done: bool) -> bool {
        &&& done == before.pieces.rows().contains_key(self.id.0)
        &&& after.pieces.rows() == if done {
            before.pieces.rows().insert(self.id.0, self.data)
        } else {
            before.pieces.rows()
        }
        &&& after.blobs == before.blobs
        &&& after.tags == before.tags
        &&& after.categories == before.categories
        &&& after.media@ == before.media@
        &&& after.piece_tags@ == before.piece_tags@
        &&& after.tag_category@ == before.tag_category@
    }

    fn edit_from(self, db: &mut DbV2) -> (done: bool) {
        db.pieces.set(self.id, self.data)
    }
}

impl EditFrom<DbV2> for EditBlob {
    /// The blob's row becomes the edit's data, if the blob is there.
    open spec fn edited(&self, before: DbV2, after: DbV2, done: bool) -> bool {
        &&& done == before.blobs.rows().contains_key(self.id.0)
        &&& after.blobs.rows() == if done {
            before.blobs.rows().insert(self.id.0, self.data)
        } else {
            before.blobs.rows()
        }
        &&& after.pieces == before.pieces
        &&& after.tags == before.tags
        &&& after.categories == before.categories
        &&& after.media@ == before.media@
        &&& after.piece_tags@ == before.piece_tags@
        &&& after.tag_category@ == before.tag_category@
    }

    fn edit_from(self, db: &mut DbV2) -> (done: bool) {
        db.blobs.set(self.id, self.data)
    }
}

impl EditFrom<DbV2> for EditTag {
    /// The tag's row becomes the edit's data, if the tag is there.
    open spec fn edited(&self, before: DbV2, after: DbV2, done: bool) -> bool {
        &&& done == before.tags.rows().contains_key(self.id.0)
        &&& after.tags.rows() == if done {
            before.tags.rows().insert(self.id.0, self.data)
        } else {
            before.tags.rows()
        }
        &&& after.pieces == before.pieces
        &&& after.blobs == before.blobs
        &&& after.categories == before.categories
        &&& after.media@ == before.media@
        &&& after.piece_tags@ == before.piece_tags@
        &&& after.tag_category@ == before.tag_category@
    }

    fn edit_from(self, db: &mut DbV2) -> (done: bool) {
        db.tags.set(self.id, self.data)
    }
}

impl EditFrom<DbV2> for EditCategory {
    /// The category's row becomes the edit's data, if the category is there.
    open spec fn edited(&self, before: DbV2, after: DbV2, done: bool) -> bool {
        &&& done == before.categories.rows().contains_key(self.id.0)
        &&& after.categories.rows() == if done {
            before.categories.rows().insert(self.id.0, self.data)
        } else {
            before.categories.rows()
        }
        &&& after.pieces == before.pieces
        &&& after.blobs == before.blobs
        &&& after.tags == before.tags
        &&& after.media@ == before.media@
        &&& after.piece_tags@ == before.piece_tags@
        &&& after.tag_category@ == before.tag_category@
    }

    fn edit_from(self, db: &mut DbV2) -> (done: bool) {
        db.categories.set(self.id, self.data)
    }
}

impl DbV2 {
    /// Whether the database has a row under `id`.
    pub fn exists_id<Id: IdExist<DbV2>>(&self, id: Id) -> (b: bool)
        ensures
            b == id.exists_spec(self),
    {
        id.exists_in(self)
    }

    /// Deletes the row under `id` and every relation it is in; true when there was such a row.
    pub fn delete<Id: DeleteFrom<DbV2>>(&mut self, id: Id) -> (done: bool)
        ensures
            id.deleted(*old(self), *final(self), done),
    {
        id.delete_from(self)
    }

    /// Applies an edit; true when the row to edit was there.
    pub fn edit<Data: EditFrom<DbV2>>(&mut self, data: Data) -> (done: bool)
        ensures
            data.edited(*old(self), *final(self), done),
    {
        data.edit_from(self)
    }
}

} // verus!
