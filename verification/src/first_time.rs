//! The first start, when no database exists yet: the folders picked for a new
//! database wait here until the application takes them, oldest first.
use crate::backend::FsPath;
use vstd::prelude::*;

verus! {

/// The folders picked in the "New Database" dialog and not taken yet.
pub struct FirstTime {
    picked: Vec<FsPath>,
}

impl FirstTime {
    /// The folders waiting, oldest first.
    pub closed spec fn waiting(&self) -> Seq<FsPath> {
        self.picked@
    }

    /// Records a folder picked in the dialog.
    pub fn folder_picked(&mut self, folder: FsPath)
        ensures
            final(self).waiting() == old(self).waiting().push(folder),
    {
        self.picked.push(folder);
    }

    /// Takes the oldest folder picked, if any is waiting.
    pub fn update(&mut self) -> (folder: Option<FsPath>)
        ensures
            old(self).waiting().len() == 0 ==> folder is None && final(self).waiting()
                == old(self).waiting(),
            old(self).waiting().len() > 0 ==> folder == Some(old(self).waiting()[0])
                && final(self).waiting() == old(self).waiting().drop_first(),
    {
        if self.picked.len() == 0 {
            None
        } else {
            Some(self.picked.remove(0))
        }
    }
}

impl Default for FirstTime {
    /// Nothing picked yet.
    fn default() -> (f: FirstTime)
        ensures
            f.waiting() == Seq::<FsPath>::empty(),
    {
        FirstTime { picked: Vec::new() }
    }
}

} // verus!
