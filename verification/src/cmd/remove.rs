//! Removing a repository.

use vstd::prelude::*;
use crate::cmd::Remove;
use crate::db::repo::Found;

verus! {

/// What is to be done with the directory of a repository that is removed.
#[derive(Debug, Clone, Copy, PartialEq, Eq, Structural)]
pub enum Removal {
    /// Remove the directory with all it holds.
    Delete,
    /// Leave the disk as it is.
    Keep,
    /// Give up: the directory cannot be read.
    Fail,
}

impl Remove {
    /// Whether the user is to be asked before the directory is removed:
    /// where there is a directory and the removal is not forced.
    pub fn asks(&self, found: Found) -> (r: bool)
        ensures
            r == (found == Found::Directory && !self.force),
    {
        match found {
            Found::Directory => !self.force,
            _ => false,
        }
    }

    /// What is to be done with the directory: it is removed where it exists
    /// and the removal is forced or the user agreed; nothing is done where
    /// the user declined or no directory exists. The record leaves the store
    /// in each of these cases.
    pub fn ensure_path(&self, found: Found, agreed: bool) -> (r: Removal)
        ensures
            r == match found {
                Found::Directory => if self.force || agreed {
                    Removal::Delete
                } else {
                    Removal::Keep
                },
                Found::Nothing => Removal::Keep,
                Found::Unreadable => Removal::Fail,
            },
    {
        match found {
            Found::Directory => if self.force || agreed {
                Removal::Delete
            } else {
                Removal::Keep
            },
            Found::Nothing => Removal::Keep,
            Found::Unreadable => Removal::Fail,
        }
    }
}

} // verus!
