//! Where a database lives on disk: its directory, its data file and the files
//! of its blobs.
use crate::db::{
    AttachCategory, AttachTag, DbV2, EditBlob, EditCategory, EditPiece, EditTag,
};
use crate::entities::{
    storage_name_of, Blob, BlobId, Category, CategoryId, Piece, PieceId, Tag, TagId,
};
use crate::relation::lists_in_order;
use crate::model::is_calendar_date;
use crate::traits::{DeleteFrom, EditFrom};
use vstd::prelude::*;

verus! {

/// A path on disk, as the names of its components, outermost first.
pub struct FsPath {
    pub parts: Vec<String>,
}

impl FsPath {
    /// The component names.
    pub open spec fn names(&self) -> Seq<Seq<char>> {
        self.parts@.map_values(|s: String| s@)
    }

    /// Appends one component.
    pub fn push(&mut self, name: &str)
        ensures
            final(self).names() == old(self).names().push(name@),
    {
        let ghost before = self.names();
        self.parts.push(String::from_str(name));
        assert(self.names() =~= before.push(name@));
    }
}

/// The name of the file that holds a database, inside its directory.
pub open spec fn data_file_name() -> Seq<char> {
    "data.aodb"@
}

/// The data file of the database in directory `path`.
pub fn data_file(path: FsPath) -> (file: FsPath)
    ensures
        file.names() == path.names().push(data_file_name()),
{
    let mut path = path;
    path.push("data.aodb");
    path
}

/// An open database and the directory it lives in.
pub struct DbBackend {
    pub root: FsPath,
    pub inner: DbV2,
}

impl DbBackend {
    /// A new, empty database in directory `root`.
    pub fn init_at_directory(root: FsPath) -> (b: DbBackend)
        ensures
            b.root == root,
            b.inner.pieces.rows() == Map::<usize, Piece>::empty(),
            b.inner.blobs.rows() == Map::<usize, Blob>::empty(),
            b.inner.tags.rows() == Map::<usize, Tag>::empty(),
            b.inner.categories.rows() == Map::<usize, Category>::empty(),
            b.inner.media@ == Set::<(usize, usize)>::empty(),
            b.inner.piece_tags@ == Set::<(usize, usize)>::empty(),
            b.inner.tag_category@ == Map::<usize, usize>::empty(),
    {
        DbBackend { root, inner: DbV2::default() }
    }

    /// The file that blob `id` is stored in.
    pub fn storage_for(&self, id: BlobId) -> (file: FsPath)
        requires
            self.inner.blobs.rows().contains_key(id.0),
        ensures
            file.names() == self.root.names().push(
                storage_name_of(id.0, self.inner.blobs.rows()[id.0].file_name@),
            ),
    {
        let name = self.inner.storage_for(id);
        let mut file = FsPath { parts: clone_names(&self.root.parts) };
        file.push(name.as_str());
        file
    }
}

/// A copy of a list of names.
fn clone_names(v: &Vec<String>) -> (r: Vec<String>)
    ensures
        r@.map_values(|s: String| s@) == v@.map_values(|s: String| s@),
{
    let mut r: Vec<String> = Vec::new();
    let mut k: usize = 0;
    while k < v.len()
        invariant
            k <= v@.len(),
            r@.len() == k,
            forall|i: int| 0 <= i < k ==> #[trigger] r@[i]@ == v@[i]@,
        decreases v@.len() - k,
    {
        r.push(String::from_str(v[k].as_str()));
        k = k + 1;
    }
    assert(r@.map_values(|s: String| s@) =~= v@.map_values(|s: String| s@));
    r
}

/// A change to the database asked for by the user.
pub enum DbAction {
    NewPiece,
    NewTag,
    NewCategory,
    EditPiece(EditPiece),
    EditBlob(EditBlob),
    EditTag(EditTag),
    EditCategory(EditCategory),
    DeletePiece(PieceId),
    DeleteBlob(BlobId),
    DeleteTag(TagId),
    DeleteCategory(CategoryId),
    AttachCategory(AttachCategory),
    AttachTag(AttachTag),
    RemoveTag(AttachTag),
}

/// What performing a [`DbAction`] gave.
pub enum DbOutcome {
    /// The id of the piece made.
    NewPiece(PieceId),
    /// The id of the tag made.
    NewTag(TagId),
    /// The id of the category made.
    NewCategory(CategoryId),
    /// Whether the edit, deletion or relation change did something.
    Done(bool),
    /// A blob was edited; where its file has to move, when its name changed.
    BlobEdited { moved: Option<(FsPath, FsPath)> },
}

/// Only the tables and relations that `changed` names differ between
/// `before` and `after`: pieces, blobs, tags, categories, media, piece tags,
/// tag categories, in that order.
pub open spec fn unchanged_but(before: DbV2, after: DbV2, changed: Seq<bool>) -> bool {
    &&& !changed[0] ==> after.pieces == before.pieces
    &&& !changed[1] ==> after.blobs == before.blobs
    &&& !changed[2] ==> after.tags == before.tags
    &&& !changed[3] ==> after.categories == before.categories
    &&& !changed[4] ==> after.media@ == before.media@
    &&& !changed[5] ==> after.piece_tags@ == before.piece_tags@
    &&& !changed[6] ==> after.tag_category@ == before.tag_category@
}

/// The rows of `after` are those of `before` and one more under `id`, which
/// `before` did not have.
pub open spec fn one_row_added<T>(before: Map<usize, T>, after: Map<usize, T>, id: usize) -> bool {
    &&& !before.contains_key(id)
    &&& after.contains_key(id)
    &&& after.remove(id) == before
}

/// How performing `action` on `before` gives `after` and `outcome`.
pub open spec fn performed(
    before: DbBackend,
    action: DbAction,
    after: DbBackend,
    outcome: DbOutcome,
) -> bool {
    &&& after.root == before.root
    &&& match action {
        DbAction::NewPiece => outcome matches DbOutcome::NewPiece(id) && {
            let p = after.inner.pieces.rows()[id.0];
            &&& one_row_added(before.inner.pieces.rows(), after.inner.pieces.rows(), id.0)
            &&& p.external_id is None && p.description@ == Seq::<char>::empty()
            &&& p.base_price is None && p.tip_price is None
            &&& is_calendar_date(p.added)
            &&& unchanged_but(
                before.inner,
                after.inner,
                seq![true, false, false, false, false, false, false],
            )
        },
        DbAction::NewTag => outcome matches DbOutcome::NewTag(id) && {
            let t = after.inner.tags.rows()[id.0];
            &&& one_row_added(before.inner.tags.rows(), after.inner.tags.rows(), id.0)
            &&& t.name@ == seq!['N', 'e', 'w', ' ', 'T', 'a', 'g']
            &&& t.description@ == Seq::<char>::empty() && t.links@ == Seq::<String>::empty()
            &&& is_calendar_date(t.added)
            &&& unchanged_but(
                before.inner,
                after.inner,
                seq![false, false, true, false, false, false, false],
            )
        },
        DbAction::NewCategory => outcome matches DbOutcome::NewCategory(id) && {
            let c = after.inner.categories.rows()[id.0];
            &&& one_row_added(before.inner.categories.rows(), after.inner.categories.rows(), id.0)
            &&& c.name@ == seq![
                'N', 'e', 'w', ' ', 'T', 'a', 'g', ' ', 'C', 'a', 't', 'e', 'g', 'o', 'r', 'y'
            ]
            &&& c.color@ == seq![0u8, 0u8, 0u8, 0u8]
            &&& is_calendar_date(c.added)
            &&& unchanged_but(
                before.inner,
                after.inner,
                seq![false, false, false, true, false, false, false],
            )
        },
        DbAction::EditPiece(e) => outcome matches DbOutcome::Done(done) && e.edited(
            before.inner,
            after.inner,
            done,
        ),
        DbAction::EditTag(e) => outcome matches DbOutcome::Done(done) && e.edited(
            before.inner,
            after.inner,
            done,
        ),
        DbAction::EditCategory(e) => outcome matches DbOutcome::Done(done) && e.edited(
            before.inner,
            after.inner,
            done,
        ),
        DbAction::EditBlob(e) => outcome matches DbOutcome::BlobEdited { moved } && {
            let from = storage_name_of(e.id.0, before.inner.blobs.rows()[e.id.0].file_name@);
            let to = storage_name_of(e.id.0, e.data.file_name@);
            &&& e.edited(before.inner, after.inner, true)
            &&& if from == to {
                moved is None
            } else {
                moved matches Some((a, b)) && a.names() == before.root.names().push(from)
                    && b.names() == before.root.names().push(to)
            }
        },
        DbAction::DeletePiece(id) => outcome matches DbOutcome::Done(done) && id.deleted(
            before.inner,
            after.inner,
            done,
        ),
        DbAction::DeleteBlob(id) => outcome matches DbOutcome::Done(done) && id.deleted(
            before.inner,
            after.inner,
            done,
        ),
        DbAction::DeleteTag(id) => outcome matches DbOutcome::Done(done) && id.deleted(
            before.inner,
            after.inner,
            done,
        ),
        DbAction::DeleteCategory(id) => outcome matches DbOutcome::Done(done) && id.deleted(
            before.inner,
            after.inner,
            done,
        ),
        DbAction::AttachCategory(a) => outcome matches DbOutcome::Done(done) && {
            &&& match a.dest {
                Some(c) => after.inner.tag_category@ == before.inner.tag_category@.insert(
                    a.src.0,
                    c.0,
                ) && done,
                None => after.inner.tag_category@ == before.inner.tag_category@.remove(a.src.0)
                    && done == before.inner.tag_category@.contains_key(a.src.0),
            }
            &&& unchanged_but(
                before.inner,
                after.inner,
                seq![false, false, false, false, false, false, true],
            )
        },
        DbAction::AttachTag(a) => outcome matches DbOutcome::Done(done) && {
            &&& after.inner.piece_tags@ == before.inner.piece_tags@.insert((a.src.0, a.dest.0))
            &&& done == !before.inner.piece_tags@.contains((a.src.0, a.dest.0))
            &&& unchanged_but(
                before.inner,
                after.inner,
                seq![false, false, false, false, false, true, false],
            )
        },
        DbAction::RemoveTag(a) => outcome matches DbOutcome::Done(done) && {
            &&& after.inner.piece_tags@ == before.inner.piece_tags@.remove((a.src.0, a.dest.0))
            &&& done == before.inner.piece_tags@.contains((a.src.0, a.dest.0))
            &&& unchanged_but(
                before.inner,
                after.inner,
                seq![false, false, false, false, false, true, false],
            )
        },
    }
}

/// Whether the database can hold what `action` asks for: a new row needs a
/// free id, and the blob to edit has to be there.
pub open spec fn can_perform(db: DbV2, action: DbAction) -> bool {
    match action {
        DbAction::NewPiece => db.pieces.slots().len() < usize::MAX,
        DbAction::NewTag => db.tags.slots().len() < usize::MAX,
        DbAction::NewCategory => db.categories.slots().len() < usize::MAX,
        DbAction::EditBlob(e) => db.blobs.rows().contains_key(e.id.0),
        _ => true,
    }
}

/// Whether the database can hold what `action` asks for (see
/// [`can_perform`]).
pub fn can_perform_now(db: &DbV2, action: &DbAction) -> (b: bool)
    ensures
        b == can_perform(*db, *action),
{
    match action {
        DbAction::NewPiece => db.pieces.can_insert(),
        DbAction::NewTag => db.tags.can_insert(),
        DbAction::NewCategory => db.categories.can_insert(),
        DbAction::EditBlob(e) => db.blobs.has(e.id),
        _ => true,
    }
}

impl DbBackend {
    /// Performs a change asked for by the user.
    pub fn perform(&mut self, action: DbAction) -> (outcome: DbOutcome)
        requires
            can_perform(old(self).inner, action),
        ensures
            performed(*old(self), action, *final(self), outcome),
    {
        match action {
            DbAction::NewPiece => {
                let data = Piece::default();
                let id = self.inner.create_piece(data);
                proof {
                    assert(self.inner.pieces.rows().remove(id.0) =~= old(self).inner.pieces.rows());
                }
                DbOutcome::NewPiece(id)
            },
            DbAction::NewTag => {
                let data = Tag::default();
                let id = self.inner.create_tag(data);
                proof {
                    assert(self.inner.tags.rows().remove(id.0) =~= old(self).inner.tags.rows());
                }
                DbOutcome::NewTag(id)
            },
            DbAction::NewCategory => {
                let data = Category::default();
                let id = self.inner.create_category(data);
                proof {
                    assert(self.inner.categories.rows().remove(id.0)
                        =~= old(self).inner.categories.rows());
                }
                DbOutcome::NewCategory(id)
            },
            DbAction::EditPiece(e) => DbOutcome::Done(self.inner.edit(e)),
            DbAction::EditTag(e) => DbOutcome::Done(self.inner.edit(e)),
            DbAction::EditCategory(e) => DbOutcome::Done(self.inner.edit(e)),
            DbAction::EditBlob(e) => {
                let id = e.id;
                let from = self.inner.storage_for(id);
                self.inner.edit(e);
                let to = self.inner.storage_for(id);
                if from == to {
                    DbOutcome::BlobEdited { moved: None }
                } else {
                    let mut a = FsPath { parts: clone_names(&self.root.parts) };
                    a.push(from.as_str());
                    let mut b = FsPath { parts: clone_names(&self.root.parts) };
                    b.push(to.as_str());
                    DbOutcome::BlobEdited { moved: Some((a, b)) }
                }
            },
            DbAction::DeletePiece(id) => DbOutcome::Done(self.inner.delete(id)),
            DbAction::DeleteBlob(id) => DbOutcome::Done(self.inner.delete(id)),
            DbAction::DeleteTag(id) => DbOutcome::Done(self.inner.delete(id)),
            DbAction::DeleteCategory(id) => DbOutcome::Done(self.inner.delete(id)),
            DbAction::AttachCategory(a) => DbOutcome::Done(self.inner.attach_category(a)),
            DbAction::AttachTag(a) => DbOutcome::Done(self.inner.attach_tag(a)),
            DbAction::RemoveTag(a) => DbOutcome::Done(self.inner.remove_tag(a)),
        }
    }
}

/// Blob `b` belongs to some piece.
pub open spec fn in_some_piece(media: Set<(usize, usize)>, b: usize) -> bool {
    exists|p: usize| media.contains((p, b))
}

/// The blobs of `rows` that belong to some piece.
pub open spec fn blobs_in_pieces(rows: Map<usize, Blob>, media: Set<(usize, usize)>) -> Map<
    usize,
    Blob,
> {
    rows.restrict(Set::new(|b: usize| in_some_piece(media, b)))
}

/// Blob `b` is among the first `j` ids of `keys` and belongs to no piece.
pub open spec fn gone_before(keys: Seq<usize>, j: int, media: Set<(usize, usize)>, b: usize) -> bool {
    exists|t: int| 0 <= t < j && keys[t] == b && !in_some_piece(media, b)
}

/// The file of blob `id` with file name `file_name` in directory `root`.
pub open spec fn blob_file(root: FsPath, id: usize, file_name: Seq<char>) -> Seq<Seq<char>> {
    root.names().push(storage_name_of(id, file_name))
}

impl DbBackend {
    /// Deletes every blob that belongs to no piece.
    pub fn remove_dangling_blobs(&mut self)
        ensures
            final(self).root == old(self).root,
            final(self).inner.blobs.rows() == blobs_in_pieces(
                old(self).inner.blobs.rows(),
                old(self).inner.media@,
            ),
            unchanged_but(
                old(self).inner,
                final(self).inner,
                seq![false, true, false, false, false, false, false],
            ),
    {
        let ghost media = self.inner.media@;
        let ghost rows0 = self.inner.blobs.rows();
        let ids = self.inner.blobs.keys();
        let ghost keys = crate::table::id_indices(ids@);
        let mut k: usize = 0;
        while k < ids.len()
            invariant
                k <= ids@.len(),
                keys == crate::table::id_indices(ids@),
                lists_in_order(keys, rows0.dom()),
                self.root == old(self).root,
                self.inner.media@ == media,
                self.inner.blobs.rows() == rows0.restrict(
                    rows0.dom().difference(Set::new(|b: usize| gone_before(keys, k as int, media, b))),
                ),
                unchanged_but(
                    old(self).inner,
                    self.inner,
                    seq![false, true, false, false, false, false, false],
                ),
            decreases ids@.len() - k,
        {
            let id = ids[k];
            assert(keys[k as int] == id.0);
            let owners = self.inner.pieces_for_blob(id);
            if owners.len() == 0 {
                let ghost before = self.inner;
                proof {
                    if in_some_piece(media, id.0) {
                        let p = choose|p: usize| media.contains((p, id.0));
                        assert(crate::relation::lefts_of(media, id.0).contains(p));
                    }
                    assert(rows0.contains_key(id.0));
                    if gone_before(keys, k as int, media, id.0) {
                        let t = choose|t: int| 0 <= t < k && keys[t] == id.0 && !in_some_piece(media, id.0);
                        assert(keys[t] < keys[k as int]);
                    }
                }
                self.inner.delete(id);
                proof {
                    assert(crate::relation::pairs_without(media, false, id.0) =~= media) by {
                        assert forall|pr: (usize, usize)| media.contains(pr) implies pr.1 != id.0 by {
                            if pr.1 == id.0 {
                                assert(media.contains((pr.0, id.0)));
                            }
                        }
                    }
                }
            } else {
                proof {
                    let p = indices_first(owners@);
                    assert(crate::relation::lefts_of(media, id.0).contains(p));
                    assert(media.contains((p, id.0)));
                }
            }
            proof {
                assert forall|b: usize| #[trigger] gone_before(keys, k + 1, media, b) <==> (
                gone_before(keys, k as int, media, b) || (b == id.0 && !in_some_piece(media, b))) by {
                    if b == id.0 && !in_some_piece(media, b) {
                        assert(keys[k as int] == b);
                    }
                    if gone_before(keys, k + 1, media, b) && b != id.0 {
                        let t = choose|t: int| 0 <= t < k + 1 && keys[t] == b && !in_some_piece(media, b);
                        assert(t < k);
                    }
                }
                assert(self.inner.blobs.rows() =~= rows0.restrict(
                    rows0.dom().difference(Set::new(|b: usize| gone_before(keys, k + 1, media, b))),
                ));
            }
            k = k + 1;
        }
        proof {
            assert(self.inner.blobs.rows() =~= blobs_in_pieces(rows0, media)) by {
                assert forall|b: usize| #[trigger] gone_before(keys, keys.len() as int, media, b)
                    <==> (rows0.contains_key(b) && !in_some_piece(media, b)) by {
                    if rows0.contains_key(b) && !in_some_piece(media, b) {
                        assert(keys.contains(b));
                    }
                }
            }
        }
    }

    /// The files of the blobs of the database, in increasing order of blob id.
    pub fn blob_files(&self) -> (files: Vec<FsPath>)
        ensures
            exists|ids: Seq<usize>|
                {
                    &&& lists_in_order(ids, self.inner.blobs.rows().dom())
                    &&& ids.len() == files@.len()
                    &&& forall|i: int|
                        0 <= i < ids.len() ==> (#[trigger] files@[i]).names() == blob_file(
                            self.root,
                            ids[i],
                            self.inner.blobs.rows()[ids[i]].file_name@,
                        )
                },
    {
        let rows = self.inner.blobs();
        let ghost ids = rows@.map_values(|e: (BlobId, &Blob)| e.0.0);
        let mut files: Vec<FsPath> = Vec::new();
        let mut k: usize = 0;
        while k < rows.len()
            invariant
                k <= rows@.len(),
                ids == rows@.map_values(|e: (BlobId, &Blob)| e.0.0),
                lists_in_order(ids, self.inner.blobs.rows().dom()),
                files@.len() == k,
                forall|i: int|
                    0 <= i < k ==> (#[trigger] files@[i]).names() == blob_file(
                        self.root,
                        ids[i],
                        self.inner.blobs.rows()[ids[i]].file_name@,
                    ),
            decreases rows@.len() - k,
        {
            let id = rows[k].0;
            assert(ids[k as int] == id.0);
            assert(self.inner.blobs.rows().dom().contains(id.0));
            files.push(self.storage_for(id));
            k = k + 1;
        }
        files
    }
}

/// The first id of a non-empty list.
proof fn indices_first(ids: Seq<PieceId>) -> (p: usize)
    requires
        ids.len() > 0,
    ensures
        crate::db::indices(ids).contains(p),
{
    assert(crate::db::indices(ids)[0] == ids[0].0);
    ids[0].0
}

/// What `regex::Regex::new(pattern)` and then `is_match(text)` on the
/// compiled expression give; `None` when the pattern does not compile.
pub uninterp spec fn regex_is_match(pattern: Seq<char>, text: Seq<char>) -> Option<bool>;

/// Calls `regex::Regex::new(pattern)` and, when it compiles, `is_match(text)`
/// on it.  The result is stated only through [`regex_is_match`]: the
/// crate's matching rules are not written out here.
#[verifier::external_body]
fn pattern_matches(pattern: &str, text: &str) -> (r: Option<bool>)
    ensures
        r == regex_is_match(pattern@, text@),
{
    match regex::Regex::new(pattern) {
        Ok(re) => Some(re.is_match(text)),
        Err(_) => None,
    }
}

/// The pattern of the names blob files are stored under: `[`, digits, `] `.
pub open spec fn stored_name_pattern() -> Seq<char> {
    "^\\[\\d+\\] "@
}

/// Whether a file name has the shape of a stored blob's file name.
pub open spec fn looks_stored(name: Seq<char>) -> bool {
    regex_is_match(stored_name_pattern(), name) == Some(true)
}

/// Whether `name` has the shape of a stored blob's file name: `[ID] ...`.
pub fn is_stored_name(name: &str) -> (b: bool)
    ensures
        b == looks_stored(name@),
{
    match pattern_matches("^\\[\\d+\\] ", name) {
        Some(m) => m,
        None => false,
    }
}

/// A file found in the database directory, with its name where it has one
/// that is valid text.
pub struct DirEntry {
    pub path: FsPath,
    pub file_name: Option<String>,
}

/// Whether a file of the database directory goes to the trash: it is named
/// like a stored blob, yet no blob of the database is stored in it.
pub open spec fn should_trash(entry: DirEntry, kept: Seq<Seq<Seq<char>>>) -> bool {
    &&& entry.file_name matches Some(n) && looks_stored(n@)
    &&& !kept.contains(entry.path.names())
}

/// The files of `entries` that go to the trash, in the order of `entries`.
pub open spec fn to_trash(entries: Seq<DirEntry>, kept: Seq<Seq<Seq<char>>>) -> Seq<Seq<Seq<char>>>
    decreases entries.len(),
{
    if entries.len() == 0 {
        Seq::empty()
    } else {
        let before = to_trash(entries.drop_last(), kept);
        if should_trash(entries.last(), kept) {
            before.push(entries.last().path.names())
        } else {
            before
        }
    }
}

/// The component names of each path.
pub open spec fn path_names(paths: Seq<FsPath>) -> Seq<Seq<Seq<char>>> {
    paths.map_values(|f: FsPath| f.names())
}

/// Whether two paths have the same components.
pub fn same_path(a: &FsPath, b: &FsPath) -> (r: bool)
    ensures
        r == (a.names() == b.names()),
{
    if a.parts.len() != b.parts.len() {
        proof {
            assert(a.names().len() != b.names().len());
        }
        return false;
    }
    let mut k: usize = 0;
    while k < a.parts.len()
        invariant
            k <= a.parts@.len(),
            a.parts@.len() == b.parts@.len(),
            forall|i: int| 0 <= i < k ==> #[trigger] a.parts@[i]@ == b.parts@[i]@,
        decreases a.parts@.len() - k,
    {
        if a.parts[k] != b.parts[k] {
            proof {
                assert(a.names()[k as int] != b.names()[k as int]);
            }
            return false;
        }
        k = k + 1;
    }
    assert(a.names() =~= b.names());
    true
}

/// Whether `path` is one of `paths`.
fn is_one_of(path: &FsPath, paths: &Vec<FsPath>) -> (r: bool)
    ensures
        r == path_names(paths@).contains(path.names()),
{
    let mut k: usize = 0;
    while k < paths.len()
        invariant
            k <= paths@.len(),
            forall|i: int| 0 <= i < k ==> (#[trigger] paths@[i]).names() != path.names(),
        decreases paths@.len() - k,
    {
        if same_path(path, &paths[k]) {
            proof {
                assert(path_names(paths@)[k as int] == path.names());
            }
            return true;
        }
        k = k + 1;
    }
    proof {
        if path_names(paths@).contains(path.names()) {
            let i = choose|i: int| 0 <= i < path_names(paths@).len() && path_names(paths@)[i] == path.names();
            assert(paths@[i].names() == path.names());
        }
    }
    false
}

/// The files of the database directory to move to the trash after cleaning:
/// those named like stored blobs that no blob of the database is stored in
/// (`kept`), in the order they were listed.
pub fn trash_candidates(entries: &Vec<DirEntry>, kept: &Vec<FsPath>) -> (files: Vec<FsPath>)
    ensures
        path_names(files@) == to_trash(entries@, path_names(kept@)),
{
    let ghost kept_names = path_names(kept@);
    let mut files: Vec<FsPath> = Vec::new();
    let mut k: usize = 0;
    while k < entries.len()
        invariant
            k <= entries@.len(),
            kept_names == path_names(kept@),
            path_names(files@) == to_trash(entries@.take(k as int), kept_names),
        decreases entries@.len() - k,
    {
        let entry = &entries[k];
        assert(entries@.take(k + 1).drop_last() =~= entries@.take(k as int));
        assert(entries@.take(k + 1).last() == entries@[k as int]);
        let goes = match &entry.file_name {
            Some(name) => is_stored_name(name.as_str()) && !is_one_of(&entry.path, kept),
            None => false,
        };
        if goes {
            let ghost before = files@;
            files.push(FsPath { parts: clone_names(&entry.path.parts) });
            assert(path_names(files@) =~= path_names(before).push(entry.path.names()));
        }
        k = k + 1;
    }
    assert(entries@.take(entries@.len() as int) =~= entries@);
    files
}

impl DbBackend {
    /// Adds a blob to piece `to`, if the piece is there, and gives the file
    /// the blob's content has to be copied to.
    pub fn add_blob(&mut self, to: PieceId, blob: Blob) -> (file: Option<(BlobId, FsPath)>)
        requires
            old(self).inner.blobs.slots().len() < usize::MAX,
        ensures
            final(self).root == old(self).root,
            old(self).inner.pieces.rows().contains_key(to.0) <==> file is Some,
            match file {
                Some((id, f)) => {
                    &&& one_row_added(old(self).inner.blobs.rows(), final(self).inner.blobs.rows(), id.0)
                    &&& final(self).inner.blobs.rows()[id.0] == blob
                    &&& final(self).inner.media@ == old(self).inner.media@.insert((to.0, id.0))
                    &&& f.names() == blob_file(old(self).root, id.0, blob.file_name@)
                    &&& unchanged_but(
                        old(self).inner,
                        final(self).inner,
                        seq![false, true, false, false, true, false, false],
                    )
                },
                None => unchanged_but(
                    old(self).inner,
                    final(self).inner,
                    seq![false, false, false, false, false, false, false],
                ),
            },
    {
        if !self.inner.pieces.has(to) {
            return None;
        }
        let id = self.inner.create_blob(blob);
        self.inner.attach_blob(crate::db::Attach { src: to, dest: id });
        proof {
            assert(self.inner.blobs.rows().remove(id.0) =~= old(self).inner.blobs.rows());
        }
        let file = self.storage_for(id);
        Some((id, file))
    }
}

} // verus!
