//! Resetting the branch to what the remote has.

use vstd::prelude::*;
use crate::cmd::Reset;

verus! {

/// The branch of the remote to reset to.
#[derive(Debug, PartialEq, Eq)]
pub enum ResetTarget {
    /// The branch of this name.
    Named(String),
    /// The branch of the name of the current branch.
    Current,
    /// The default branch.
    Default,
}

impl Reset {
    /// The branch to reset to: the one that is named; else the default
    /// branch where it or the upstream is asked for; else the current one.
    pub fn run(&self) -> (r: ResetTarget)
        ensures
            match r {
                ResetTarget::Named(name) => self.args.len() > 0 && name@ == self.args[0]@,
                ResetTarget::Current => self.args.len() == 0 && !self.upstream && !self.default,
                ResetTarget::Default => self.args.len() == 0 && (self.upstream || self.default),
            },
    {
        if self.args.len() > 0 {
            ResetTarget::Named(self.args[0].clone())
        } else if !self.upstream && !self.default {
            ResetTarget::Current
        } else {
            ResetTarget::Default
        }
    }
}

} // verus!
