//! Tables of rows addressed by stable numeric ids.
//!
//! A table hands out the smallest-effort id on insertion: the most recently
//! freed slot if there is one, otherwise a fresh slot at the end.  Ids of rows
//! that stay in the table never change.
use core::marker::PhantomData;
use crate::relation::lists_in_order;
use vstd::prelude::*;
use vstd::std_specs::cmp::PartialEqSpecImpl;
use vstd::std_specs::convert::FromSpecImpl;

verus! {

/// The id of a row of a `Table<T>`.
#[derive(Debug)]
pub struct TableId<T>(pub usize, pub PhantomData<T>);

impl<T> TableId<T> {
    /// The id with the given slot number.
    pub fn new(index: usize) -> (id: TableId<T>)
        ensures
            id.0 == index,
    {
        TableId(index, PhantomData)
    }

    /// The slot number of this id.
    pub fn index(&self) -> (i: usize)
        ensures
            i == self.0,
    {
        self.0
    }
}

impl<T> Clone for TableId<T> {
    fn clone(&self) -> (r: TableId<T>)
        ensures
            r.0 == self.0,
    {
        TableId(self.0, PhantomData)
    }
}

impl<T> Copy for TableId<T> {

}

impl<T> PartialEq for TableId<T> {
    fn eq(&self, other: &TableId<T>) -> (r: bool) {
        self.0 == other.0
    }
}

impl<T> PartialEqSpecImpl for TableId<T> {
    open spec fn obeys_eq_spec() -> bool {
        true
    }

    open spec fn eq_spec(&self, other: &TableId<T>) -> bool {
        self.0 == other.0
    }
}

impl<T> Eq for TableId<T> {

}

impl<T> From<usize> for TableId<T> {
    fn from(value: usize) -> (id: TableId<T>) {
        TableId(value, PhantomData)
    }
}

impl<T> FromSpecImpl<usize> for TableId<T> {
    open spec fn obeys_from_spec() -> bool {
        true
    }

    open spec fn from_spec(v: usize) -> TableId<T> {
        TableId(v, PhantomData)
    }
}

/// Either the id of a row already in a table, or a value to insert.
pub enum MaybeEntry<T> {
    Id(TableId<T>),
    Value(T),
}

/// A table of rows of type `T`, each under its own id.
pub struct Table<T> {
    slots: Vec<Option<T>>,
    vacant: Vec<usize>,
}

impl<T> Table<T> {
    /// The slots of the table in id order; a slot holds a row or is free.
    pub closed spec fn slots(&self) -> Seq<Option<T>> {
        self.slots@
    }

    /// Free slots are listed once each, in the order they were freed.
    #[verifier::type_invariant]
    closed spec fn well_formed(&self) -> bool {
        &&& self.vacant@.no_duplicates()
        &&& forall|k: int|
            0 <= k < self.vacant@.len() ==> #[trigger] self.vacant@[k] < self.slots@.len()
                && self.slots@[self.vacant@[k] as int] is None
    }

    /// The rows of the table, by id.
    pub open spec fn rows(&self) -> Map<usize, T> {
        Map::new(
            |k: usize| 0 <= k < self.slots().len() && self.slots()[k as int] is Some,
            |k: usize| self.slots()[k as int]->0,
        )
    }

    /// An empty table.
    pub fn new() -> (t: Table<T>)
        ensures
            t.slots() == Seq::<Option<T>>::empty(),
            t.rows() == Map::<usize, T>::empty(),
    {
        let t = Table { slots: Vec::new(), vacant: Vec::new() };
        assert(t.rows() =~= Map::<usize, T>::empty());
        t
    }

    /// Whether the table has a row under `index`.
    pub fn has(&self, index: TableId<T>) -> (b: bool)
        ensures
            b == self.rows().contains_key(index.0),
    {
        index.0 < self.slots.len() && self.slots[index.0].is_some()
    }

    /// The row under `index`, if there is one.
    pub fn get(&self, index: TableId<T>) -> (r: Option<&T>)
        ensures
            match r {
                Some(v) => self.rows().contains_key(index.0) && *v == self.rows()[index.0],
                None => !self.rows().contains_key(index.0),
            },
    {
        if index.0 < self.slots.len() {
            self.slots[index.0].as_ref()
        } else {
            None
        }
    }

    /// The row under `index`, which must be in the table.
    pub fn index(&self, index: TableId<T>) -> (r: &T)
        requires
            self.rows().contains_key(index.0),
        ensures
            *r == self.rows()[index.0],
    {
        self.slots[index.0].as_ref().unwrap()
    }
}


impl<T> Table<T> {
    /// The id that the next insertion will use: the most recently freed
    /// slot that is still free, or else the slot after the last one.
    pub closed spec fn next_id(&self) -> usize {
        if self.vacant@.len() > 0 {
            self.vacant@.last()
        } else {
            self.slots@.len() as usize
        }
    }

    /// Adds a row under a fresh id and returns the id.
    pub fn insert(&mut self, data: T) -> (id: TableId<T>)
        requires
            old(self).slots().len() < usize::MAX,
        ensures
            id.0 == old(self).next_id(),
            !old(self).rows().contains_key(id.0),
            final(self).rows() == old(self).rows().insert(id.0, data),
    {
        proof {
            use_type_invariant(&*self);
        }
        let ghost before = self.rows();
        let mut whole = Table::new();
        std::mem::swap(&mut whole, self);
        let Table { mut slots, mut vacant } = whole;
        let id = match vacant.pop() {
            Some(k) => {
                proof {
                    let v0 = old(self).vacant@;
                    assert(v0[v0.len() - 1] == k);
                    assert forall|j: int| 0 <= j < vacant@.len() implies #[trigger] vacant@[j] != k by {
                        assert(v0[j] == vacant@[j]);
                    }
                }
                slots.set(k, Some(data));
                TableId(k, PhantomData)
            },
            None => {
                let k = slots.len();
                slots.push(Some(data));
                TableId(k, PhantomData)
            },
        };
        *self = Table { slots, vacant };
        assert(self.rows() =~= before.insert(id.0, data));
        id
    }

    /// Removes the row under `data`, which must be in the table, and returns it.
    pub fn remove(&mut self, data: TableId<T>) -> (row: T)
        requires
            old(self).rows().contains_key(data.0),
        ensures
            row == old(self).rows()[data.0],
            final(self).rows() == old(self).rows().remove(data.0),
            final(self).next_id() == data.0,
            final(self).slots().len() == old(self).slots().len(),
    {
        proof {
            use_type_invariant(&*self);
        }
        let ghost before = self.rows();
        let k = data.0;
        let mut whole = Table::new();
        std::mem::swap(&mut whole, self);
        let Table { mut slots, mut vacant } = whole;
        let slot = slots[k].take();
        assert forall|j: int| 0 <= j < vacant@.len() implies #[trigger] vacant@[j] != k by {
            assert(slots@[vacant@[j] as int] is None);
        }
        vacant.push(k);
        *self = Table { slots, vacant };
        assert(self.rows() =~= before.remove(k));
        slot.unwrap()
    }

    /// Puts `value` in place of the row under `index`, if there is one.
    pub fn set(&mut self, index: TableId<T>, value: T) -> (done: bool)
        ensures
            done == old(self).rows().contains_key(index.0),
            final(self).rows() == if done {
                old(self).rows().insert(index.0, value)
            } else {
                old(self).rows()
            },
            final(self).next_id() == old(self).next_id(),
            final(self).slots().len() == old(self).slots().len(),
    {
        proof {
            use_type_invariant(&*self);
        }
        let ghost before = self.rows();
        if self.has(index) {
            let mut whole = Table::new();
            std::mem::swap(&mut whole, self);
            let Table { mut slots, vacant } = whole;
            slots.set(index.0, Some(value));
            *self = Table { slots, vacant };
            assert(self.rows() =~= before.insert(index.0, value));
            true
        } else {
            false
        }
    }
}


/// The slot numbers of a list of ids.
pub open spec fn id_indices<T>(ids: Seq<TableId<T>>) -> Seq<usize> {
    ids.map_values(|id: TableId<T>| id.0)
}

impl<T> Table<T> {
    /// Whether one more row can be inserted: the table has not run out of slot numbers.
    pub fn can_insert(&self) -> (b: bool)
        ensures
            b == (self.slots().len() < usize::MAX),
    {
        self.slots.len() < usize::MAX
    }

    /// The ids of all rows, in increasing order.
    pub fn keys(&self) -> (ids: Vec<TableId<T>>)
        ensures
            lists_in_order(id_indices(ids@), self.rows().dom()),
    {
        let mut ids: Vec<TableId<T>> = Vec::new();
        let mut k: usize = 0;
        while k < self.slots.len()
            invariant
                k <= self.slots@.len(),
                forall|i: int, j: int|
                    0 <= i < j < ids@.len() ==> ids@[i].0 < ids@[j].0,
                forall|i: int|
                    0 <= i < ids@.len() ==> #[trigger] ids@[i].0 < k && self.rows().contains_key(
                        ids@[i].0,
                    ),
                forall|x: usize|
                    x < k && self.rows().contains_key(x) ==> exists|i: int|
                        0 <= i < ids@.len() && #[trigger] ids@[i].0 == x,
            decreases self.slots@.len() - k,
        {
            let ghost before = ids@;
            if self.slots[k].is_some() {
                ids.push(TableId(k, PhantomData));
                assert(ids@[ids@.len() - 1].0 == k);
            }
            assert forall|x: usize| x < k + 1 && self.rows().contains_key(x) implies exists|i: int|
                0 <= i < ids@.len() && #[trigger] ids@[i].0 == x by {
                if x < k {
                    let i = choose|i: int| 0 <= i < before.len() && #[trigger] before[i].0 == x;
                    assert(ids@[i] == before[i]);
                } else {
                    assert(ids@[ids@.len() - 1].0 == k);
                }
            }
            k = k + 1;
        }
        let ghost idx = id_indices(ids@);
        assert forall|x: usize| self.rows().contains_key(x) implies idx.contains(x) by {
            let i = choose|i: int| 0 <= i < ids@.len() && #[trigger] ids@[i].0 == x;
            assert(idx[i] == x);
        }
        ids
    }

    /// Every row with its id, in increasing order of id.
    pub fn iter(&self) -> (rows: Vec<(TableId<T>, &T)>)
        ensures
            lists_in_order(rows@.map_values(|e: (TableId<T>, &T)| e.0.0), self.rows().dom()),
            forall|i: int|
                0 <= i < rows@.len() ==> *(#[trigger] rows@[i]).1 == self.rows()[rows@[i].0.0],
    {
        let mut rows: Vec<(TableId<T>, &T)> = Vec::new();
        let mut k: usize = 0;
        while k < self.slots.len()
            invariant
                k <= self.slots@.len(),
                forall|i: int, j: int|
                    0 <= i < j < rows@.len() ==> rows@[i].0.0 < rows@[j].0.0,
                forall|i: int|
                    0 <= i < rows@.len() ==> #[trigger] rows@[i].0.0 < k && self.rows().contains_key(
                        rows@[i].0.0,
                    ) && *rows@[i].1 == self.rows()[rows@[i].0.0],
                forall|x: usize|
                    x < k && self.rows().contains_key(x) ==> exists|i: int|
                        0 <= i < rows@.len() && #[trigger] rows@[i].0.0 == x,
            decreases self.slots@.len() - k,
        {
            let ghost before = rows@;
            match &self.slots[k] {
                Some(v) => {
                    rows.push((TableId(k, PhantomData), v));
                    assert(rows@[rows@.len() - 1].0.0 == k);
                },
                None => {},
            }
            assert forall|x: usize| x < k + 1 && self.rows().contains_key(x) implies exists|i: int|
                0 <= i < rows@.len() && #[trigger] rows@[i].0.0 == x by {
                if x < k {
                    let i = choose|i: int| 0 <= i < before.len() && #[trigger] before[i].0.0 == x;
                    assert(rows@[i] == before[i]);
                } else {
                    assert(rows@[rows@.len() - 1].0.0 == k);
                }
            }
            k = k + 1;
        }
        let ghost idx = rows@.map_values(|e: (TableId<T>, &T)| e.0.0);
        assert forall|x: usize| self.rows().contains_key(x) implies idx.contains(x) by {
            let i = choose|i: int| 0 <= i < rows@.len() && #[trigger] rows@[i].0.0 == x;
            assert(idx[i] == x);
        }
        rows
    }

    /// The id of the first row (in id order) that `same` relates to `data`, or
    /// else `data` itself.
    pub fn check<F: Fn(&T, &T) -> bool>(&self, data: T, same: F) -> (r: MaybeEntry<T>)
        requires
            forall|k: usize| #[trigger]
                self.rows().contains_key(k) ==> same.requires((&self.rows()[k], &data)),
        ensures
            match r {
                MaybeEntry::Id(id) => {
                    &&& self.rows().contains_key(id.0)
                    &&& same.ensures((&self.rows()[id.0], &data), true)
                    &&& forall|k: usize|
                        #![trigger self.rows()[k]]
                        k < id.0 && self.rows().contains_key(k) ==> same.ensures(
                            (&self.rows()[k], &data),
                            false,
                        )
                },
                MaybeEntry::Value(v) => {
                    &&& v == data
                    &&& forall|k: usize|
                        #![trigger self.rows()[k]]
                        self.rows().contains_key(k) ==> same.ensures(
                            (&self.rows()[k], &data),
                            false,
                        )
                },
            },
    {
        let mut k: usize = 0;
        while k < self.slots.len()
            invariant
                k <= self.slots@.len(),
                forall|x: usize| #[trigger]
                    self.rows().contains_key(x) ==> same.requires((&self.rows()[x], &data)),
                forall|x: usize|
                    #![trigger self.rows()[x]]
                    x < k && self.rows().contains_key(x) ==> same.ensures(
                        (&self.rows()[x], &data),
                        false,
                    ),
            decreases self.slots@.len() - k,
        {
            match &self.slots[k] {
                Some(v) => {
                    assert(self.rows().contains_key(k));
                    if same(v, &data) {
                        return MaybeEntry::Id(TableId(k, PhantomData));
                    }
                },
                None => {},
            }
            k = k + 1;
        }
        MaybeEntry::Value(data)
    }
}


impl<T> Table<T> {
    /// A table with the same ids, each row turned into `f` of it.
    pub fn convert<U, F: Fn(&T) -> U>(&self, f: F) -> (t: Table<U>)
        requires
            forall|k: usize| #[trigger] self.rows().contains_key(k) ==> f.requires((&self.rows()[k],)),
        ensures
            t.rows().dom() == self.rows().dom(),
            forall|k: usize| #[trigger]
                t.rows().contains_key(k) ==> f.ensures((&self.rows()[k],), t.rows()[k]),
            t.slots().len() == self.slots().len(),
            t.next_id() == self.next_id(),
    {
        proof {
            use_type_invariant(self);
        }
        let mut slots: Vec<Option<U>> = Vec::new();
        let mut k: usize = 0;
        while k < self.slots.len()
            invariant
                k <= self.slots@.len(),
                slots@.len() == k,
                forall|x: usize| #[trigger]
                    self.rows().contains_key(x) ==> f.requires((&self.rows()[x],)),
                forall|j: int|
                    0 <= j < k ==> (#[trigger] slots@[j] is Some) == (self.slots@[j] is Some),
                forall|j: int|
                    0 <= j < k && #[trigger] slots@[j] is Some ==> f.ensures(
                        (&self.slots@[j]->0,),
                        slots@[j]->0,
                    ),
            decreases self.slots@.len() - k,
        {
            match &self.slots[k] {
                Some(v) => {
                    assert(self.rows().contains_key(k));
                    let u = f(v);
                    slots.push(Some(u));
                },
                None => {
                    slots.push(None);
                },
            }
            k = k + 1;
        }
        let t = Table { slots, vacant: self.vacant.clone() };
        assert(t.rows().dom() =~= self.rows().dom());
        assert forall|x: usize| #[trigger] t.rows().contains_key(x) implies f.ensures(
            (&self.rows()[x],),
            t.rows()[x],
        ) by {
            assert(t.slots@[x as int] is Some);
        }
        t
    }
}

impl<T> Default for Table<T> {
    /// An empty table.
    fn default() -> (t: Table<T>)
        ensures
            t.rows() == Map::<usize, T>::empty(),
    {
        Table::new()
    }
}

/// The rows given as (id, row) pairs, a later pair for the same id
/// replacing an earlier one.
pub open spec fn rows_of_pairs<T>(pairs: Seq<(usize, T)>) -> Map<usize, T>
    decreases pairs.len(),
{
    if pairs.len() == 0 {
        Map::empty()
    } else {
        rows_of_pairs(pairs.drop_last()).insert(pairs.last().0, pairs.last().1)
    }
}

/// The ids of the pairs increase.
pub open spec fn ids_increase<T>(pairs: Seq<(usize, T)>) -> bool {
    forall|i: int, j: int| 0 <= i < j < pairs.len() ==> pairs[i].0 < pairs[j].0
}

impl<T> Table<T> {
    /// A table holding `pairs`, given in increasing order of id: the slots
    /// below the highest id that no pair fills are free, and the highest of
    /// them is the one the next insertion takes.
    pub fn from_rows(pairs: Vec<(usize, T)>) -> (t: Table<T>)
        requires
            ids_increase(pairs@),
            pairs@.len() > 0 ==> pairs@.last().0 < usize::MAX,
        ensures
            t.rows() == rows_of_pairs(pairs@),
            t.slots().len() == if pairs@.len() == 0 {
                0
            } else {
                pairs@.last().0 + 1
            },
            t.next_id() == t.slots().len() || !t.rows().contains_key(t.next_id()),
            forall|k: usize| k < t.slots().len() && !t.rows().contains_key(k) ==> k <= t.next_id()
                && t.next_id() < t.slots().len(),
    {
        let ghost all = pairs@;
        let total = pairs.len();
        let mut pairs = pairs;
        let mut slots: Vec<Option<T>> = Vec::new();
        let mut vacant: Vec<usize> = Vec::new();
        let mut taken: usize = 0;
        while pairs.len() > 0
            invariant
                taken <= all.len(),
                total == all.len(),
                pairs@ == all.skip(taken as int),
                ids_increase(all),
                all.len() > 0 ==> all.last().0 < usize::MAX,
                slots@.len() == if taken == 0 {
                    0
                } else {
                    all[taken - 1].0 + 1
                },
                forall|k: int| 0 <= k < vacant@.len() ==> #[trigger] vacant@[k] < slots@.len()
                    && slots@[vacant@[k] as int] is None,
                forall|k: int, l: int| 0 <= k < l < vacant@.len() ==> vacant@[k] < vacant@[l],
                forall|x: int| 0 <= x < slots@.len() && slots@[x] is None ==> exists|k: int|
                    0 <= k < vacant@.len() && #[trigger] vacant@[k] == x,
                Map::new(
                    |k: usize| 0 <= k < slots@.len() && slots@[k as int] is Some,
                    |k: usize| slots@[k as int]->0,
                ) == rows_of_pairs(all.take(taken as int)),
            decreases pairs@.len(),
        {
            let ghost before_slots = slots@;
            let (id, row) = pairs.remove(0);
            assert(all[taken as int] == (id, row));
            proof {
                if taken > 0 {
                    assert(all[taken - 1].0 < all[taken as int].0);
                }
                assert(id <= all.last().0);
            }
            while slots.len() < id
                invariant
                    slots@.len() <= id,
                    id < usize::MAX,
                    before_slots.len() <= slots@.len(),
                    slots@.subrange(0, before_slots.len() as int) == before_slots,
                    forall|x: int| before_slots.len() <= x < slots@.len() ==> slots@[x] is None,
                    forall|k: int| 0 <= k < vacant@.len() ==> #[trigger] vacant@[k] < slots@.len()
                        && slots@[vacant@[k] as int] is None,
                    forall|k: int, l: int| 0 <= k < l < vacant@.len() ==> vacant@[k] < vacant@[l],
                    forall|x: int| 0 <= x < slots@.len() && slots@[x] is None ==> exists|k: int|
                        0 <= k < vacant@.len() && #[trigger] vacant@[k] == x,
                decreases id - slots@.len(),
            {
                let free = slots.len();
                let ghost old_vac = vacant@;
                let ghost old_slots = slots@;
                vacant.push(free);
                slots.push(None);
                proof {
                    assert forall|x: int| 0 <= x < slots@.len() && slots@[x] is None implies exists|k: int|
                        0 <= k < vacant@.len() && #[trigger] vacant@[k] == x by {
                        if x == free {
                            assert(vacant@[vacant@.len() - 1] == x);
                        } else {
                            assert(old_slots[x] is None);
                            let k = choose|k: int| 0 <= k < old_vac.len() && #[trigger] old_vac[k] == x;
                            assert(vacant@[k] == x);
                        }
                    }
                }
            }
            let ghost filled = slots@;
            slots.push(Some(row));
            taken = taken + 1;
            proof {
                assert(all.skip(taken as int) =~= pairs@);
                assert(all.take(taken as int).drop_last() =~= all.take(taken - 1));
                assert(all.take(taken as int).last() == (id, row));
                let m_before = Map::new(
                    |k: usize| 0 <= k < before_slots.len() && before_slots[k as int] is Some,
                    |k: usize| before_slots[k as int]->0,
                );
                let m_after = Map::new(
                    |k: usize| 0 <= k < slots@.len() && slots@[k as int] is Some,
                    |k: usize| slots@[k as int]->0,
                );
                assert forall|k: usize| 0 <= k < before_slots.len() implies slots@[k as int] == before_slots[k as int] by {
                    assert(filled.subrange(0, before_slots.len() as int)[k as int] == filled[k as int]);
                }
                assert(m_after =~= m_before.insert(id, row));
                assert forall|x: int| 0 <= x < slots@.len() && slots@[x] is None implies exists|k: int|
                    0 <= k < vacant@.len() && #[trigger] vacant@[k] == x by {
                    assert(x < filled.len());
                    assert(filled[x] is None);
                }
            }
        }
        proof {
            assert(all.take(taken as int) =~= all);
        }
        let t = Table { slots, vacant };
        proof {
            let n = t.slots@.len();
            assert(t.vacant@.no_duplicates()) by {
                assert forall|k: int, l: int| 0 <= k < t.vacant@.len() && 0 <= l < t.vacant@.len() && k != l implies t.vacant@[k] != t.vacant@[l] by {
                    if k < l {
                        assert(t.vacant@[k] < t.vacant@[l]);
                    } else {
                        assert(t.vacant@[l] < t.vacant@[k]);
                    }
                }
            }
            assert(t.rows() =~= Map::new(
                |k: usize| 0 <= k < t.slots@.len() && t.slots@[k as int] is Some,
                |k: usize| t.slots@[k as int]->0,
            ));
            if t.vacant@.len() > 0 {
                let last = t.vacant@.last();
                assert forall|k: usize| k < n && !t.rows().contains_key(k) implies k <= last by {
                    assert(t.slots@[k as int] is None);
                    let j = choose|j: int| 0 <= j < t.vacant@.len() && #[trigger] t.vacant@[j] == k as int;
                    if j < t.vacant@.len() - 1 {
                        assert(t.vacant@[j] < t.vacant@[t.vacant@.len() - 1]);
                    }
                }
            } else {
                assert forall|k: usize| k < n && !t.rows().contains_key(k) implies false by {
                    assert(t.slots@[k as int] is None);
                }
            }
        }
        t
    }
}

} // verus!
