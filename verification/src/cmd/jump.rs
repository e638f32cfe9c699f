//! Jumping to a repository by a keyword.

use vstd::prelude::*;
use crate::cmd::Jump;
use crate::config::{keyword_keys, Config};
use crate::db::{first_match, matches_keyword, Database};
use crate::errors::{Error, ErrorView};
use crate::text::{chars_of, same_chars};
use crate::util::{name_base, split_chars};

verus! {

impl Jump {
    /// The position of the first record, of any remote, that matches the
    /// keyword.
    pub fn run(&self, db: &Database) -> (r: Result<usize, Error>)
        ensures
            match r {
                Ok(i) => i < db.records().len() && first_match(
                    db.records(),
                    matches_keyword(Seq::empty(), self.keyword@),
                ) == Some(i as int),
                Err(e) => e@ == ErrorView::ResolutionFailed(self.keyword@) && first_match(
                    db.records(),
                    matches_keyword(Seq::empty(), self.keyword@),
                ) is None,
            },
    {
        let all = String::new();
        db.match_keyword(all.as_str(), self.keyword.as_str())
    }

    /// Whether the keyword is to be remembered after it led to the
    /// repository `name`: it is, unless it is the base of the name or one of
    /// the fixed keywords.
    pub fn remember(&self, name: &str, cfg: &Config) -> (r: bool)
        ensures
            r == (name_base(name@) != self.keyword@ && !keyword_keys(cfg.keyword_map@).contains(
                self.keyword@,
            )),
    {
        let (_, base) = split_chars(&chars_of(name));
        if same_chars(&base, &chars_of(self.keyword.as_str())) {
            return false;
        }
        !cfg.has_keyword(self.keyword.as_str())
    }
}

} // verus!
