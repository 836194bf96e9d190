use vstd::prelude::*;

verus! {

/// What a directory entry is.
#[derive(Debug, Clone, Copy, PartialEq, Eq, Structural)]
pub enum EntryKind {
    Directory,
    File,
    Symlink,
}

/// One entry of a directory: its file name, its full path and its kind.
#[derive(Debug)]
pub struct Entry {
    pub name: String,
    pub path: String,
    pub kind: EntryKind,
}

impl Clone for Entry {
    fn clone(&self) -> (r: Self)
        ensures
            r == *self,
    {
        Entry { name: self.name.clone(), path: self.path.clone(), kind: self.kind }
    }
}

} // verus!
