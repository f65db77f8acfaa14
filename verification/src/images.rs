//! The images of blobs loaded for display: which are on hand, which have
//! been asked for, and what is forgotten when their blob goes.
use crate::db::DbV2;
use crate::entities::BlobId;
use crate::relation::{keys_in_order, lemma_ids_ordered, lists_in_order};
use std::collections::{BTreeMap, BTreeSet};
use vstd::prelude::*;

verus! {

/// Loaded images (`I`) of blobs, full size and as thumbnails, and the loads
/// asked for, by blob id.
pub struct ImageCache<I> {
    pub images: BTreeMap<usize, I>,
    pub thumbnails: BTreeMap<usize, I>,
    pub requested_images: BTreeSet<usize>,
    pub requested_thumbnails: BTreeSet<usize>,
}

/// The loads asked for of one kind.
pub open spec fn requests<I>(cache: ImageCache<I>, thumbnail: bool) -> Set<usize> {
    if thumbnail {
        cache.requested_thumbnails@
    } else {
        cache.requested_images@
    }
}

/// The images on hand of one kind.
pub open spec fn loaded_of<I>(cache: ImageCache<I>, thumbnail: bool) -> Map<usize, I> {
    if thumbnail {
        cache.thumbnails@
    } else {
        cache.images@
    }
}

impl<I> ImageCache<I> {
    /// Nothing loaded or asked for.
    pub fn new() -> (c: ImageCache<I>)
        ensures
            c.images@ == Map::<usize, I>::empty(),
            c.thumbnails@ == Map::<usize, I>::empty(),
            c.requested_images@ == Set::<usize>::empty(),
            c.requested_thumbnails@ == Set::<usize>::empty(),
    {
        ImageCache {
            images: BTreeMap::new(),
            thumbnails: BTreeMap::new(),
            requested_images: BTreeSet::new(),
            requested_thumbnails: BTreeSet::new(),
        }
    }

    /// Asks for the image (or thumbnail) of a blob: true when it was not
    /// asked for yet, and it is now; a load is started only then.
    pub fn request(&mut self, blob: BlobId, thumbnail: bool) -> (fresh: bool)
        ensures
            fresh == !requests(*old(self), thumbnail).contains(blob.0),
            requests(*final(self), thumbnail) == requests(*old(self), thumbnail).insert(blob.0),
            requests(*final(self), !thumbnail) == requests(*old(self), !thumbnail),
            final(self).images@ == old(self).images@,
            final(self).thumbnails@ == old(self).thumbnails@,
    {
        broadcast use vstd::std_specs::btree::group_btree_axioms;
        proof {
            lemma_ids_ordered();
        }
        if thumbnail {
            self.requested_thumbnails.insert(blob.0)
        } else {
            self.requested_images.insert(blob.0)
        }
    }

    /// A load failed: the image may be asked for again.
    pub fn load_failed(&mut self, blob: BlobId, thumbnail: bool)
        ensures
            requests(*final(self), thumbnail) == requests(*old(self), thumbnail).remove(blob.0),
            requests(*final(self), !thumbnail) == requests(*old(self), !thumbnail),
            final(self).images@ == old(self).images@,
            final(self).thumbnails@ == old(self).thumbnails@,
    {
        broadcast use vstd::std_specs::btree::group_btree_axioms;
        proof {
            lemma_ids_ordered();
        }
        if thumbnail {
            self.requested_thumbnails.remove(&blob.0);
        } else {
            self.requested_images.remove(&blob.0);
        }
    }

    /// A loaded image arrives.
    pub fn loaded(&mut self, blob: BlobId, image: I, thumbnail: bool)
        ensures
            loaded_of(*final(self), thumbnail) == loaded_of(*old(self), thumbnail).insert(blob.0, image),
            loaded_of(*final(self), !thumbnail) == loaded_of(*old(self), !thumbnail),
            final(self).requested_images@ == old(self).requested_images@,
            final(self).requested_thumbnails@ == old(self).requested_thumbnails@,
    {
        broadcast use vstd::std_specs::btree::group_btree_axioms;
        proof {
            lemma_ids_ordered();
        }
        if thumbnail {
            self.thumbnails.insert(blob.0, image);
        } else {
            self.images.insert(blob.0, image);
        }
    }

    /// Forgets everything about a blob's images.
    pub fn invalidate(&mut self, blob: BlobId)
        ensures
            final(self).images@ == old(self).images@.remove(blob.0),
            final(self).thumbnails@ == old(self).thumbnails@.remove(blob.0),
            final(self).requested_images@ == old(self).requested_images@.remove(blob.0),
            final(self).requested_thumbnails@ == old(self).requested_thumbnails@.remove(blob.0),
    {
        broadcast use vstd::std_specs::btree::group_btree_axioms;
        proof {
            lemma_ids_ordered();
        }
        self.images.remove(&blob.0);
        self.thumbnails.remove(&blob.0);
        self.requested_images.remove(&blob.0);
        self.requested_thumbnails.remove(&blob.0);
    }

    /// Forgets everything about the blobs that have a full-size image on hand
    /// but no row in `db` any more.
    pub fn forget_missing(&mut self, db: &DbV2)
        ensures
            ({
                let gone = Set::new(
                    |b: usize| old(self).images@.contains_key(b) && !db.blobs.rows().contains_key(b),
                );
                &&& final(self).images@ == old(self).images@.remove_keys(gone)
                &&& final(self).thumbnails@ == old(self).thumbnails@.remove_keys(gone)
                &&& final(self).requested_images@ == old(self).requested_images@.difference(gone)
                &&& final(self).requested_thumbnails@ == old(
                    self,
                ).requested_thumbnails@.difference(gone)
            }),
    {
        let ghost gone = Set::new(
            |b: usize| old(self).images@.contains_key(b) && !db.blobs.rows().contains_key(b),
        );
        let keys = keys_in_order(&self.images);
        let mut k: usize = 0;
        while k < keys.len()
            invariant
                k <= keys@.len(),
                lists_in_order(keys@, old(self).images@.dom()),
                gone == Set::new(
                    |b: usize| old(self).images@.contains_key(b) && !db.blobs.rows().contains_key(b),
                ),
                self.images@ == old(self).images@.remove_keys(gone_before(keys@, k as int, gone)),
                self.thumbnails@ == old(self).thumbnails@.remove_keys(gone_before(keys@, k as int, gone)),
                self.requested_images@ == old(self).requested_images@.difference(
                    gone_before(keys@, k as int, gone),
                ),
                self.requested_thumbnails@ == old(self).requested_thumbnails@.difference(
                    gone_before(keys@, k as int, gone),
                ),
            decreases keys@.len() - k,
        {
            let b = keys[k];
            assert(old(self).images@.dom().contains(b));
            let ghost before = gone_before(keys@, k as int, gone);
            let ghost after = gone_before(keys@, k + 1, gone);
            if !db.blobs.has(crate::table::TableId::new(b)) {
                assert(after =~= before.insert(b));
                self.invalidate(crate::table::TableId::new(b));
                assert(self.images@ =~= old(self).images@.remove_keys(after));
                assert(self.thumbnails@ =~= old(self).thumbnails@.remove_keys(after));
                assert(self.requested_images@ =~= old(self).requested_images@.difference(after));
                assert(self.requested_thumbnails@ =~= old(self).requested_thumbnails@.difference(after));
            } else {
                assert(after =~= before);
            }
            k = k + 1;
        }
        proof {
            assert(gone_before(keys@, keys@.len() as int, gone) =~= gone) by {
                assert forall|b: usize| gone.contains(b) implies gone_before(keys@, keys@.len() as int, gone).contains(b) by {
                    assert(keys@.contains(b));
                }
            }
        }
    }
}

/// The ids among the first `k` of `keys` that are in `gone`.
pub open spec fn gone_before(keys: Seq<usize>, k: int, gone: Set<usize>) -> Set<usize> {
    Set::new(|b: usize| gone.contains(b) && exists|i: int| 0 <= i < k && keys[i] == b)
}

} // verus!
