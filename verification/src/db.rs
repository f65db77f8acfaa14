//! The database: four tables and the relations between their rows.
use crate::entities::{
    Blob, BlobId, BlobType, Category, CategoryId, Piece, PieceId, Tag, TagId, storage_name_of,
};
use crate::relation::{
    keys_with_value, keys_with_value_in_order, lefts_in_order, lefts_of, lemma_ids_ordered,
    lists_in_order, map_without_value, pairs_without, rights_in_order, rights_of, without,
};
use crate::table::{Table, TableId};
use std::collections::{BTreeMap, BTreeSet};
use vstd::prelude::*;

verus! {

/// A request to relate `src` to `dest`.
#[derive(Debug, Clone, Copy, PartialEq, Eq)]
pub struct Attach<Left, Right> {
    pub src: Left,
    pub dest: Right,
}

/// A request to replace the row under `id` by `data`.
#[derive(Debug, Clone, Copy, PartialEq, Eq)]
pub struct Edit<DataId, Data> {
    pub id: DataId,
    pub data: Data,
}

pub type AttachBlob = Attach<PieceId, BlobId>;

pub type AttachCategory = Attach<TagId, Option<CategoryId>>;

pub type AttachTag = Attach<PieceId, TagId>;

pub type EditPiece = Edit<PieceId, Piece>;

pub type EditBlob = Edit<BlobId, Blob>;

pub type EditTag = Edit<TagId, Tag>;

pub type EditCategory = Edit<CategoryId, Category>;

/// The database.  `media` relates pieces to their blobs, `piece_tags` pieces
/// to their tags, and `tag_category` maps a tag to its category; all three
/// hold slot numbers of ids.
pub struct DbV2 {
    pub pieces: Table<Piece>,
    pub blobs: Table<Blob>,
    pub tags: Table<Tag>,
    pub categories: Table<Category>,
    pub media: BTreeSet<(usize, usize)>,
    pub piece_tags: BTreeSet<(usize, usize)>,
    pub tag_category: BTreeMap<usize, usize>,
}

/// The current version of the database.
pub type Db = DbV2;

/// Slot numbers of a list of ids.
pub open spec fn indices<T>(ids: Seq<TableId<T>>) -> Seq<usize> {
    ids.map_values(|id: TableId<T>| id.0)
}

/// Wraps slot numbers as ids.
fn ids_of<T>(v: Vec<usize>) -> (ids: Vec<TableId<T>>)
    ensures
        indices(ids@) == v@,
{
    let mut ids: Vec<TableId<T>> = Vec::new();
    let mut k: usize = 0;
    while k < v.len()
        invariant
            k <= v@.len(),
            ids@.len() == k,
            forall|i: int| 0 <= i < k ==> #[trigger] ids@[i].0 == v@[i],
        decreases v@.len() - k,
    {
        ids.push(TableId::new(v[k]));
        k = k + 1;
    }
    assert(indices(ids@) =~= v@);
    ids
}

impl Default for DbV2 {
    /// An empty database.
    fn default() -> (db: DbV2)
        ensures
            db.pieces.rows() == Map::<usize, Piece>::empty(),
            db.blobs.rows() == Map::<usize, Blob>::empty(),
            db.tags.rows() == Map::<usize, Tag>::empty(),
            db.categories.rows() == Map::<usize, Category>::empty(),
            db.media@ == Set::<(usize, usize)>::empty(),
            db.piece_tags@ == Set::<(usize, usize)>::empty(),
            db.tag_category@ == Map::<usize, usize>::empty(),
    {
        DbV2 {
            pieces: Table::new(),
            blobs: Table::new(),
            tags: Table::new(),
            categories: Table::new(),
            media: BTreeSet::new(),
            piece_tags: BTreeSet::new(),
            tag_category: BTreeMap::new(),
        }
    }
}

impl DbV2 {
    /// Adds a blob and returns its id.
    pub fn create_blob(&mut self, data: Blob) -> (id: BlobId)
        requires
            old(self).blobs.slots().len() < usize::MAX,
        ensures
            !old(self).blobs.rows().contains_key(id.0),
            final(self).blobs.rows() == old(self).blobs.rows().insert(id.0, data),
            final(self).pieces == old(self).pieces,
            final(self).tags == old(self).tags,
            final(self).categories == old(self).categories,
            final(self).media@ == old(self).media@,
            final(self).piece_tags@ == old(self).piece_tags@,
            final(self).tag_category@ == old(self).tag_category@,
    {
        self.blobs.insert(data)
    }

    /// Adds a piece and returns its id.
    pub fn create_piece(&mut self, data: Piece) -> (id: PieceId)
        requires
            old(self).pieces.slots().len() < usize::MAX,
        ensures
            !old(self).pieces.rows().contains_key(id.0),
            final(self).pieces.rows() == old(self).pieces.rows().insert(id.0, data),
            final(self).blobs == old(self).blobs,
            final(self).tags == old(self).tags,
            final(self).categories == old(self).categories,
            final(self).media@ == old(self).media@,
            final(self).piece_tags@ == old(self).piece_tags@,
            final(self).tag_category@ == old(self).tag_category@,
    {
        self.pieces.insert(data)
    }

    /// Adds a tag and returns its id.
    pub fn create_tag(&mut self, data: Tag) -> (id: TagId)
        requires
            old(self).tags.slots().len() < usize::MAX,
        ensures
            !old(self).tags.rows().contains_key(id.0),
            final(self).tags.rows() == old(self).tags.rows().insert(id.0, data),
            final(self).pieces == old(self).pieces,
            final(self).blobs == old(self).blobs,
            final(self).categories == old(self).categories,
            final(self).media@ == old(self).media@,
            final(self).piece_tags@ == old(self).piece_tags@,
            final(self).tag_category@ == old(self).tag_category@,
    {
        self.tags.insert(data)
    }

    /// Adds a category and returns its id.
    pub fn create_category(&mut self, data: Category) -> (id: CategoryId)
        requires
            old(self).categories.slots().len() < usize::MAX,
        ensures
            !old(self).categories.rows().contains_key(id.0),
            final(self).categories.rows() == old(self).categories.rows().insert(id.0, data),
            final(self).pieces == old(self).pieces,
            final(self).blobs == old(self).blobs,
            final(self).tags == old(self).tags,
            final(self).media@ == old(self).media@,
            final(self).piece_tags@ == old(self).piece_tags@,
            final(self).tag_category@ == old(self).tag_category@,
    {
        self.categories.insert(data)
    }

    /// Relates a piece to a blob; true when they were not related before.
    pub fn attach_blob(&mut self, attach: AttachBlob) -> (added: bool)
        ensures
            final(self).media@ == old(self).media@.insert((attach.src.0, attach.dest.0)),
            added == !old(self).media@.contains((attach.src.0, attach.dest.0)),
            final(self).pieces == old(self).pieces,
            final(self).blobs == old(self).blobs,
            final(self).tags == old(self).tags,
            final(self).categories == old(self).categories,
            final(self).piece_tags@ == old(self).piece_tags@,
            final(self).tag_category@ == old(self).tag_category@,
    {
        broadcast use vstd::std_specs::btree::group_btree_axioms;
        proof {
            lemma_ids_ordered();
        }
        self.media.insert((attach.src.0, attach.dest.0))
    }

    /// Puts a tag in a category (`Some`), always true, or takes it out of its
    /// category (`None`), true when it was in one.
    pub fn attach_category(&mut self, attach: AttachCategory) -> (changed: bool)
        ensures
            match attach.dest {
                Some(c) => {
                    &&& final(self).tag_category@ == old(self).tag_category@.insert(
                        attach.src.0,
                        c.0,
                    )
                    &&& changed
                },
                None => {
                    &&& final(self).tag_category@ == old(self).tag_category@.remove(attach.src.0)
                    &&& changed == old(self).tag_category@.contains_key(attach.src.0)
                },
            },
            final(self).pieces == old(self).pieces,
            final(self).blobs == old(self).blobs,
            final(self).tags == old(self).tags,
            final(self).categories == old(self).categories,
            final(self).media@ == old(self).media@,
            final(self).piece_tags@ == old(self).piece_tags@,
    {
        broadcast use vstd::std_specs::btree::group_btree_axioms;
        proof {
            lemma_ids_ordered();
        }
        match attach.dest {
            Some(new_category) => {
                self.tag_category.insert(attach.src.0, new_category.0);
                true
            },
            None => self.tag_category.remove(&attach.src.0).is_some(),
        }
    }

    /// Tags a piece; true when it did not carry the tag before.
    pub fn attach_tag(&mut self, attach: AttachTag) -> (added: bool)
        ensures
            final(self).piece_tags@ == old(self).piece_tags@.insert((attach.src.0, attach.dest.0)),
            added == !old(self).piece_tags@.contains((attach.src.0, attach.dest.0)),
            final(self).pieces == old(self).pieces,
            final(self).blobs == old(self).blobs,
            final(self).tags == old(self).tags,
            final(self).categories == old(self).categories,
            final(self).media@ == old(self).media@,
            final(self).tag_category@ == old(self).tag_category@,
    {
        broadcast use vstd::std_specs::btree::group_btree_axioms;
        proof {
            lemma_ids_ordered();
        }
        self.piece_tags.insert((attach.src.0, attach.dest.0))
    }

    /// Takes a tag off a piece; true when the piece carried it.
    pub fn remove_tag(&mut self, attach: AttachTag) -> (removed: bool)
        ensures
            final(self).piece_tags@ == old(self).piece_tags@.remove((attach.src.0, attach.dest.0)),
            removed == old(self).piece_tags@.contains((attach.src.0, attach.dest.0)),
            final(self).pieces == old(self).pieces,
            final(self).blobs == old(self).blobs,
            final(self).tags == old(self).tags,
            final(self).categories == old(self).categories,
            final(self).media@ == old(self).media@,
            final(self).tag_category@ == old(self).tag_category@,
    {
        broadcast use vstd::std_specs::btree::group_btree_axioms;
        proof {
            lemma_ids_ordered();
        }
        self.piece_tags.remove(&(attach.src.0, attach.dest.0))
    }

    /// The blobs of a piece, in increasing order of id.
    pub fn blobs_for_piece(&self, piece_id: PieceId) -> (ids: Vec<BlobId>)
        ensures
            lists_in_order(indices(ids@), rights_of(self.media@, piece_id.0)),
    {
        ids_of(rights_in_order(&self.media, piece_id.0))
    }

    /// The pieces a blob belongs to, in increasing order of id.
    pub fn pieces_for_blob(&self, blob_id: BlobId) -> (ids: Vec<PieceId>)
        ensures
            lists_in_order(indices(ids@), lefts_of(self.media@, blob_id.0)),
    {
        ids_of(lefts_in_order(&self.media, blob_id.0))
    }

    /// The tags of a piece, in increasing order of id.
    pub fn tags_for_piece(&self, piece_id: PieceId) -> (ids: Vec<TagId>)
        ensures
            lists_in_order(indices(ids@), rights_of(self.piece_tags@, piece_id.0)),
    {
        ids_of(rights_in_order(&self.piece_tags, piece_id.0))
    }

    /// The pieces that carry a tag, in increasing order of id.
    pub fn pieces_for_tag(&self, tag_id: TagId) -> (ids: Vec<PieceId>)
        ensures
            lists_in_order(indices(ids@), lefts_of(self.piece_tags@, tag_id.0)),
    {
        ids_of(lefts_in_order(&self.piece_tags, tag_id.0))
    }

    /// The tags in a category, in increasing order of id.
    pub fn tags_for_category(&self, category_id: CategoryId) -> (ids: Vec<TagId>)
        ensures
            lists_in_order(indices(ids@), keys_with_value(self.tag_category@, category_id.0)),
    {
        ids_of(keys_with_value_in_order(&self.tag_category, category_id.0))
    }

    /// The category of a tag, if it has one.
    pub fn category_for_tag(&self, tag_id: TagId) -> (c: Option<CategoryId>)
        ensures
            match c {
                Some(c) => self.tag_category@.contains_key(tag_id.0) && c.0
                    == self.tag_category@[tag_id.0],
                None => !self.tag_category@.contains_key(tag_id.0),
            },
    {
        broadcast use vstd::std_specs::btree::group_btree_axioms;
        proof {
            lemma_ids_ordered();
        }
        match self.tag_category.get(&tag_id.0) {
            Some(c) => Some(TableId::new(*c)),
            None => None,
        }
    }

    /// Whether the first blob of a piece that is canonical would be found
    /// without meeting a blob id that has no row: every related blob that
    /// no canonical related blob precedes has a row.
    pub open spec fn blobs_of_piece_resolvable(&self, piece_id: usize) -> bool {
        forall|b: usize|
            #![trigger self.media@.contains((piece_id, b))]
            self.media@.contains((piece_id, b)) && !(exists|c: usize|
                c < b && self.is_canon_blob_of(piece_id, c)) ==> self.blobs.rows().contains_key(b)
    }

    /// `b` is a canonical blob of the piece.
    pub open spec fn is_canon_blob_of(&self, piece_id: usize, b: usize) -> bool {
        &&& self.media@.contains((piece_id, b))
        &&& self.blobs.rows().contains_key(b)
        &&& self.blobs.rows()[b].blob_type == BlobType::Canon
    }

    /// The first (lowest-id) canonical blob of a piece.
    pub fn primary_blob_for_piece(&self, piece_id: PieceId) -> (r: Option<BlobId>)
        requires
            self.blobs_of_piece_resolvable(piece_id.0),
        ensures
            match r {
                Some(b) => self.is_canon_blob_of(piece_id.0, b.0) && forall|c: usize|
                    c < b.0 ==> !self.is_canon_blob_of(piece_id.0, c),
                None => forall|c: usize| !self.is_canon_blob_of(piece_id.0, c),
            },
    {
        let ids = self.blobs_for_piece(piece_id);
        assert forall|c: usize|
            #![trigger self.is_canon_blob_of(piece_id.0, c)]
            self.is_canon_blob_of(piece_id.0, c) implies exists|t: int|
                0 <= t < ids@.len() && #[trigger] ids@[t].0 == c by {
            assert(rights_of(self.media@, piece_id.0).contains(c));
            assert(indices(ids@).contains(c));
            let t = choose|t: int| 0 <= t < indices(ids@).len() && indices(ids@)[t] == c;
            assert(ids@[t].0 == c);
        }
        let mut k: usize = 0;
        while k < ids.len()
            invariant
                k <= ids@.len(),
                self.blobs_of_piece_resolvable(piece_id.0),
                lists_in_order(indices(ids@), rights_of(self.media@, piece_id.0)),
                forall|c: usize|
                    #![trigger self.is_canon_blob_of(piece_id.0, c)]
                    self.is_canon_blob_of(piece_id.0, c) ==> exists|t: int|
                        k <= t < ids@.len() && #[trigger] ids@[t].0 == c,
            decreases ids@.len() - k,
        {
            let b = ids[k];
            assert(indices(ids@)[k as int] == b.0);
            assert(rights_of(self.media@, piece_id.0).contains(b.0));
            proof {
                assert forall|c: usize| c < b.0 implies !self.is_canon_blob_of(piece_id.0, c) by {
                    if self.is_canon_blob_of(piece_id.0, c) {
                        let t = choose|t: int| k <= t < ids@.len() && #[trigger] ids@[t].0 == c;
                        assert(indices(ids@)[t] == c);
                        if t > k {
                            assert(indices(ids@)[k as int] < indices(ids@)[t]);
                        }
                    }
                }
            }
            if self.blobs.index(b).blob_type == BlobType::Canon {
                return Some(b);
            }
            assert forall|c: usize|
                #![trigger self.is_canon_blob_of(piece_id.0, c)]
                self.is_canon_blob_of(piece_id.0, c) implies exists|t: int|
                    k + 1 <= t < ids@.len() && #[trigger] ids@[t].0 == c by {
                let t = choose|t: int| k <= t < ids@.len() && #[trigger] ids@[t].0 == c;
                assert(t != k);
            }
            k = k + 1;
        }
        None
    }

    /// Every piece with its id, in increasing order of id.
    pub fn pieces(&self) -> (rows: Vec<(PieceId, &Piece)>)
        ensures
            lists_in_order(
                rows@.map_values(|e: (PieceId, &Piece)| e.0.0),
                self.pieces.rows().dom(),
            ),
            forall|i: int|
                0 <= i < rows@.len() ==> *(#[trigger] rows@[i]).1 == self.pieces.rows()[rows@[i].0.0],
    {
        self.pieces.iter()
    }

    /// Every blob with its id, in increasing order of id.
    pub fn blobs(&self) -> (rows: Vec<(BlobId, &Blob)>)
        ensures
            lists_in_order(
                rows@.map_values(|e: (BlobId, &Blob)| e.0.0),
                self.blobs.rows().dom(),
            ),
            forall|i: int|
                0 <= i < rows@.len() ==> *(#[trigger] rows@[i]).1 == self.blobs.rows()[rows@[i].0.0],
    {
        self.blobs.iter()
    }

    /// Every tag with its id, in increasing order of id.
    pub fn tags(&self) -> (rows: Vec<(TagId, &Tag)>)
        ensures
            lists_in_order(rows@.map_values(|e: (TagId, &Tag)| e.0.0), self.tags.rows().dom()),
            forall|i: int|
                0 <= i < rows@.len() ==> *(#[trigger] rows@[i]).1 == self.tags.rows()[rows@[i].0.0],
    {
        self.tags.iter()
    }

    /// Every category with its id, in increasing order of id.
    pub fn categories(&self) -> (rows: Vec<(CategoryId, &Category)>)
        ensures
            lists_in_order(
                rows@.map_values(|e: (CategoryId, &Category)| e.0.0),
                self.categories.rows().dom(),
            ),
            forall|i: int|
                0 <= i < rows@.len() ==> *(#[trigger] rows@[i]).1
                    == self.categories.rows()[rows@[i].0.0],
    {
        self.categories.iter()
    }

    /// The file name a blob is stored under in the database directory.
    pub fn storage_for(&self, id: BlobId) -> (name: String)
        requires
            self.blobs.rows().contains_key(id.0),
        ensures
            name@ == storage_name_of(id.0, self.blobs.rows()[id.0].file_name@),
    {
        self.blobs.index(id).storage_name(id)
    }
}

} // verus!
