//! Detaching a directory from its repository.

use vstd::prelude::*;
use crate::cmd::Detach;
use crate::db::{first_match, has_path, Database};
use crate::errors::{Error, ErrorView};
use crate::text::{append_chars, chars_of, string_of};

verus! {

/// The message for a path that no record is bound to.
pub open spec fn not_bound(path: Seq<char>) -> Seq<char> {
    "path "@ + path + " did not bound to any repository"@
}

impl Detach {
    /// Takes the record that is bound to `path` out of the store.
    pub fn run(&self, db: &mut Database, path: &str) -> (r: Result<(), Error>)
        ensures
            final(db).file() == old(db).file(),
            match first_match(old(db).records(), has_path(path@)) {
                Some(i) => r is Ok && final(db).records() == old(db).records().remove(i)
                    && final(db).is_dirty(),
                None => (r matches Err(e) && e@ == ErrorView::Message(not_bound(path@)))
                    && final(db).records() == old(db).records()
                    && final(db).is_dirty() == old(db).is_dirty(),
            },
    {
        match db.get_by_path(path) {
            Some(i) => {
                let _ = db.remove(i);
                Ok(())
            },
            None => {
                let mut text = chars_of("path ");
                append_chars(&mut text, &chars_of(path));
                append_chars(&mut text, &chars_of(" did not bound to any repository"));
                Err(Error::Message(string_of(&text)))
            },
        }
    }
}

} // verus!
