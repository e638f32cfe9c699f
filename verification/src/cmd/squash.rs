//! Squashing the commits that the branch is ahead by.

use vstd::prelude::*;
use crate::cmd::{line1, line3, texts, Squash};
use crate::errors::{Error, ErrorView};
use crate::text::{
    append_chars, chars_of, decimal, decimal_chars, rows, slice_of, split_chars_on,
    split_text, string_of, trim_start_space, trim_start_space_chars,
};

verus! {

/// Whether a line of the log names a commit of the current branch: it begins
/// with `<`, white space aside.
pub open spec fn is_own_commit(line: Seq<char>) -> bool {
    trim_start_space(line).len() > 0 && trim_start_space(line)[0] == '<'
}

/// The commits of the current branch among the first `upto` lines of the
/// log: what follows the `<` of each line that begins with it.
pub open spec fn commits_of(lines: Seq<Seq<char>>, upto: int) -> Seq<Seq<char>>
    decreases upto,
{
    if upto <= 0 {
        Seq::empty()
    } else if is_own_commit(lines[upto - 1]) {
        commits_of(lines, upto - 1).push(trim_start_space(lines[upto - 1]).skip(1))
    } else {
        commits_of(lines, upto - 1)
    }
}

/// What squashing asks git for.
#[derive(Debug, PartialEq, Eq)]
pub struct SquashPlan {
    /// The arguments of the reset that takes the commits back.
    pub reset: Vec<String>,
    /// The arguments of the commit that takes their place.
    pub commit: Vec<String>,
}

impl Squash {
    /// The range of the log between the head and `target`.
    pub fn range(target: &str) -> (r: String)
        ensures
            r@ == "HEAD..."@ + target@,
    {
        let mut out = chars_of("HEAD...");
        append_chars(&mut out, &chars_of(target));
        string_of(&out)
    }

    /// The commits that the current branch is ahead by, from what `git log
    /// --left-right` printed.
    pub fn commits_between(output: &str) -> (r: Vec<String>)
        ensures
            texts(r@) == commits_of(
                split_text(output@, '\n'),
                split_text(output@, '\n').len() as int,
            ),
    {
        let lines = split_chars_on(&chars_of(output), '\n');
        let ghost all = split_text(output@, '\n');
        let mut commits: Vec<String> = Vec::new();
        let mut i: usize = 0;
        proof {
            assert(texts(commits@) =~= commits_of(all, 0));
        }
        while i < lines.len()
            invariant
                i <= lines.len(),
                all == rows(lines@),
                texts(commits@) == commits_of(all, i as int),
            decreases lines.len() - i,
        {
            let line = trim_start_space_chars(&lines[i]);
            let ghost before = texts(commits@);
            if line.len() > 0 && line[0] == '<' {
                let commit = slice_of(&line, 1, line.len());
                proof {
                    assert(commit@ =~= line@.skip(1));
                }
                commits.push(string_of(&commit));
                proof {
                    assert(texts(commits@) =~= before.push(commit@));
                }
            }
            i += 1;
        }
        commits
    }

    /// What squashing `count` commits asks git for: at least two commits are
    /// asked for; they are taken back by a soft reset, and one commit, with
    /// the message where one is given, takes their place.
    pub fn run(&self, count: usize, target: &str) -> (r: Result<SquashPlan, Error>)
        ensures
            match r {
                Ok(plan) => count >= 2 && texts(plan.reset@) == seq![
                    "reset"@,
                    "--soft"@,
                    "HEAD~"@ + decimal(count as nat),
                ] && texts(plan.commit@) == match self.message {
                    Some(msg) => seq!["commit"@, "-m"@, msg@],
                    None => seq!["commit"@],
                },
                Err(e) => if count == 0 {
                    e@ == ErrorView::Message("no commit to squash"@)
                } else {
                    count == 1 && e@ == ErrorView::Message(
                        "only found one commit ahead "@ + target@ + ", no need to squash"@,
                    )
                },
            },
    {
        if count == 0 {
            return Err(Error::Message("no commit to squash".to_owned()));
        }
        if count == 1 {
            let mut text = chars_of("only found one commit ahead ");
            append_chars(&mut text, &chars_of(target));
            append_chars(&mut text, &chars_of(", no need to squash"));
            return Err(Error::Message(string_of(&text)));
        }
        let mut set = chars_of("HEAD~");
        append_chars(&mut set, &decimal_chars(count as u64));
        let reset = line3("reset", "--soft", string_of(&set).as_str());
        let commit = match &self.message {
            Some(msg) => line3("commit", "-m", msg.as_str()),
            None => line1("commit"),
        };
        Ok(SquashPlan { reset, commit })
    }
}

} // verus!
