//! The commands that undo and redo.

use vstd::prelude::*;

verus! {

/// The command that undoes the last operation done.
pub struct Undo;

impl Undo {
    pub fn name(&self) -> (name: &'static str)
        ensures
            name@ == "Undo"@,
    {
        "Undo"
    }
}

/// The command that redoes the last operation undone.
pub struct Redo;

impl Redo {
    pub fn name(&self) -> (name: &'static str)
        ensures
            name@ == "Redo"@,
    {
        "Redo"
    }
}

} // verus!
