//! Undoable edits of a single value.
use vstd::prelude::*;
use vstd::std_specs::cmp::PartialEqSpec;

verus! {

/// How a new edit combines with the previous one.
#[derive(Debug, PartialEq, Eq)]
pub enum Merge<C> {
    /// The new edit was folded into the previous one.
    Yes,
    /// The edits stay apart; the new one is handed back.
    No(C),
    /// The two edits cancel out.
    Annul,
}

/// An edit that sets a value to `to`, remembering in `from` what it replaced.
#[derive(Debug)]
pub struct BasicCommand<T> {
    pub from: Option<T>,
    pub to: T,
}

/// `b` is `a` or a copy that `a.clone()` may give.
pub open spec fn copied<T: Clone>(a: T, b: T) -> bool {
    cloned::<T>(a, b)
}

/// Copies of a `T` are equal to the value they were made from.
pub open spec fn clone_is_exact<T: Clone>() -> bool {
    forall|a: T, b: T| #[trigger] cloned::<T>(a, b) ==> a == b
}

impl<T: Clone + Eq + PartialEq> BasicCommand<T> {
    /// An edit that sets the value to `value` and has not been applied yet.
    pub fn set(value: T) -> (c: BasicCommand<T>)
        ensures
            c.from is None,
            c.to == value,
    {
        BasicCommand { from: None, to: value }
    }

    /// Applies the edit: remembers a copy of the current value and puts a
    /// copy of `to` in its place.
    pub fn apply(&mut self, target: &mut T) -> (r: Result<(), ()>)
        ensures
            r is Ok,
            applied(*old(self), *old(target), *final(self), *final(target)),
    {
        self.from = Some(target.clone());
        *target = self.to.clone();
        Ok(())
    }

    /// Undoes the edit: puts a copy of the remembered value back.  The edit
    /// must have been applied.
    pub fn undo(&mut self, target: &mut T) -> (r: Result<(), ()>)
        requires
            old(self).from is Some,
        ensures
            r is Ok,
            undone(*old(self), *old(target), *final(self), *final(target)),
    {
        *target = self.from.as_ref().unwrap().clone();
        Ok(())
    }

    /// Combines a new edit with this one: they cancel out when the new edit
    /// sets the value back to what this one replaced; otherwise the new edit
    /// stays apart when it has been applied on its own, and else this edit
    /// takes over the new edit's target value.  Which values are "the same"
    /// is `T`'s `==`; where `T` states no meaning for `==`, only the last two
    /// outcomes are told apart.
    pub fn merge(&mut self, command: BasicCommand<T>) -> (m: Merge<BasicCommand<T>>)
        ensures
            merged(*old(self), command, *final(self), m),
    {
        let cancels = match &self.from {
            Some(f) => *f == command.to,
            None => false,
        };
        if cancels {
            Merge::Annul
        } else if command.from.is_some() {
            Merge::No(command)
        } else {
            self.to = command.to;
            Merge::Yes
        }
    }
}

/// Applying `before` to `target` gives the edit `after` and the value `result`.
pub open spec fn applied<T: Clone>(
    before: BasicCommand<T>,
    target: T,
    after: BasicCommand<T>,
    result: T,
) -> bool {
    &&& after.from matches Some(f) && copied(target, f)
    &&& after.to == before.to
    &&& copied(before.to, result)
}

/// Undoing `before` on `target` leaves the edit as it was and gives `result`.
pub open spec fn undone<T: Clone>(
    before: BasicCommand<T>,
    target: T,
    after: BasicCommand<T>,
    result: T,
) -> bool {
    &&& after == before
    &&& copied(before.from->0, result)
}

/// Merging `command` into `before` gives `after` and the outcome `m`.
pub open spec fn merged<T: PartialEq>(
    before: BasicCommand<T>,
    command: BasicCommand<T>,
    after: BasicCommand<T>,
    m: Merge<BasicCommand<T>>,
) -> bool {
    let cancels = before.from matches Some(f) && f.eq_spec(&command.to);
    &&& T::obeys_eq_spec() ==> (m is Annul <==> cancels)
    &&& m is Annul ==> after == before && before.from is Some
    &&& m is No ==> m == Merge::No(command) && command.from is Some && after == before
    &&& m is Yes ==> command.from is None && after.from == before.from && after.to == command.to
}

} // verus!
