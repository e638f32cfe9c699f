//! Reading what git prints: branches, remotes and tags.

use std::fmt::Write;
use vstd::prelude::*;
use crate::db::repo::Epoch;
use crate::errors::{text_outcome, Error, ErrorView};
use crate::text::{
    all_digits, append_chars, chars_of, contains_chars, contains_text, decimal, decimal_chars,
    decimal_value, parse_decimal, same_chars, slice_of, split_chars_on, split_text,
    starts_with, starts_with_chars, string_of, trim_space, trim_space_chars,
};
use crate::util::since_epoch;

verus! {

/// How a local branch stands to the branch it tracks.
#[derive(Debug, Clone, Copy, PartialEq, Eq, Structural)]
pub enum BranchStatus {
    Sync,
    Gone,
    Ahead,
    Behind,
    Conflict,
    Detached,
}

impl BranchStatus {
    /// The word that shows the status.
    pub fn display(&self) -> (r: &'static str)
        ensures
            r@ == match *self {
                BranchStatus::Sync => "sync"@,
                BranchStatus::Gone => "gone"@,
                BranchStatus::Ahead => "ahead"@,
                BranchStatus::Behind => "behind"@,
                BranchStatus::Conflict => "conflict"@,
                BranchStatus::Detached => "detached"@,
            },
    {
        match self {
            BranchStatus::Sync => "sync",
            BranchStatus::Gone => "gone",
            BranchStatus::Ahead => "ahead",
            BranchStatus::Behind => "behind",
            BranchStatus::Conflict => "conflict",
            BranchStatus::Detached => "detached",
        }
    }
}

/// A local branch as `git branch -vv` describes it.
#[derive(Debug, PartialEq, Eq)]
pub struct GitBranch {
    pub name: String,
    pub status: BranchStatus,
    pub current: bool,
}

/// The mathematical value of a branch.
pub struct GitBranchView {
    pub name: Seq<char>,
    pub status: BranchStatus,
    pub current: bool,
}

impl View for GitBranch {
    type V = GitBranchView;

    open spec fn view(&self) -> GitBranchView {
        GitBranchView { name: self.name@, status: self.status, current: self.current }
    }
}

/// The groups of one match of a regular expression: for each group the text
/// it matched, where it took part in the match.
pub type Groups = Seq<Option<Seq<char>>>;

/// What `Regex::captures_iter` of the crate regex finds for `pattern` in
/// `text`: the matches from left to right, each with its groups; none where
/// the pattern is no regular expression.
pub uninterp spec fn regex_captures(pattern: Seq<char>, text: Seq<char>) -> Option<Seq<Groups>>;

/// What `Regex::replace_all` of the crate regex makes of `rule` when every
/// match of `pattern` is replaced by `placeholder_text` of its first two
/// groups for `nums`; none where the pattern is no regular expression.
pub uninterp spec fn regex_filled(pattern: Seq<char>, rule: Seq<char>, nums: Seq<u32>) -> Option<
    Seq<char>,
>;

/// The groups held in a list, as values.
pub open spec fn groups_view(groups: Seq<Option<String>>) -> Groups {
    groups.map_values(
        |g: Option<String>|
            match g {
                Some(s) => Some(s@),
                None => None,
            },
    )
}

/// The matches held in a list, as values.
pub open spec fn matches_view(all: Seq<Vec<Option<String>>>) -> Seq<Groups> {
    all.map_values(|m: Vec<Option<String>>| groups_view(m@))
}

/// Calls `Regex::new` and `Regex::captures_iter` of the crate regex: the
/// matches of `pattern` in `text` from left to right, each with the text of
/// every group that took part; none where the pattern does not compile.
#[verifier::external_body]
fn captures(pattern: &str, text: &str) -> (r: Option<Vec<Vec<Option<String>>>>)
    ensures
        match r {
            Some(all) => regex_captures(pattern@, text@) == Some(matches_view(all@)),
            None => regex_captures(pattern@, text@) is None,
        },
{
    let re = regex::Regex::new(pattern).ok()?;
    Some(
        re.captures_iter(text).map(
            |caps| caps.iter().map(|g| g.map(|m| m.as_str().to_string())).collect(),
        ).collect(),
    )
}

/// Calls `Regex::new` and `Regex::replace_all` of the crate regex: `rule`
/// with every match of `pattern` replaced by what `placeholder_text` gives
/// for its first two groups; none where the pattern does not compile.
#[verifier::external_body]
fn fill_placeholders(pattern: &str, rule: &str, nums: &Vec<u32>) -> (r: Option<String>)
    ensures
        match r {
            Some(filled) => regex_filled(pattern@, rule@, nums@) == Some(filled@),
            None => regex_filled(pattern@, rule@, nums@) is None,
        },
{
    let re = regex::Regex::new(pattern).ok()?;
    Some(
        re.replace_all(
            rule,
            |caps: &regex::Captures| {
                GitTag::placeholder_text(
                    nums,
                    caps.get(1).map_or("", |m| m.as_str()),
                    caps.get(2).is_some(),
                )
            },
        ).into_owned(),
    )
}

/// Calls `DateTime::from_timestamp`, `DateTime::with_timezone` and
/// `DateTime::format` of the crate chrono: the local time at `seconds` after
/// the Unix epoch, written as `format` asks; none where `seconds` lies beyond
/// the dates that chrono holds, or where `format` is no format. The result
/// depends on the time zone of the machine, so nothing is promised of it.
#[verifier::external_body]
fn format_time(seconds: Epoch, format: &str) -> (r: Option<String>) {
    let seconds = i64::try_from(seconds).ok()?;
    let time = chrono::DateTime::from_timestamp(seconds, 0)?;
    let mut out = String::new();
    match write!(out, "{}", time.with_timezone(&chrono::Local).format(format)) {
        Ok(()) => Some(out),
        Err(_) => None,
    }
}

/// The current local time written as `format` asks; none where the clock
/// gives no time or the time cannot be written so.
fn format_now(format: &str) -> (r: Option<String>) {
    match since_epoch() {
        Some(seconds) => format_time(seconds, format),
        None => None,
    }
}

/// The pattern of a line of `git branch -vv`: the mark of the current
/// branch, the name, the commit, the tracking note in brackets, the message.
pub const BRANCH_REGEX: &'static str =
    r"^(\*)*[ ]*([^ ]*)[ ]*([^ ]*)[ ]*(\[[^\]]*\])*[ ]*(.*)$";

/// The pattern of a number in a tag.
pub const NUM_REGEX: &'static str = r"\d+";

/// The pattern of a placeholder in a tag rule: a position among the numbers
/// of the tag or a date field, an optional plus sign, all in braces.
pub const PLACEHOLDER_REGEX: &'static str = r"\{(\d+|%[yYmMdD])(\+)*}";

/// The prefix of the line of `git remote show` that names the head branch.
pub const HEAD_BRANCH_PREFIX: &'static str = "HEAD branch:";

/// The status that a tracking note stands for: gone where it says so, a
/// conflict where it says ahead and behind, ahead or behind where it says
/// one of them, in sync else; detached where there is no note.
pub open spec fn status_of(note: Option<Seq<char>>) -> BranchStatus {
    match note {
        None => BranchStatus::Detached,
        Some(text) => if contains_text(text, "gone"@) {
            BranchStatus::Gone
        } else if contains_text(text, "ahead"@) && contains_text(text, "behind"@) {
            BranchStatus::Conflict
        } else if contains_text(text, "ahead"@) {
            BranchStatus::Ahead
        } else if contains_text(text, "behind"@) {
            BranchStatus::Behind
        } else {
            BranchStatus::Sync
        },
    }
}

/// The message for a line that does not describe a branch.
pub open spec fn invalid_branch(line: Seq<char>) -> Seq<char> {
    "invalid branch description "@ + line + ", please check your git command"@
}

/// The branch that the groups of a line stand for: six groups are asked
/// for; the second marks the current branch, the third is the name, the
/// fifth the tracking note.
pub open spec fn branch_of(line: Seq<char>, groups: Groups) -> Result<GitBranchView, ErrorView> {
    if groups.len() != 6 {
        Err(ErrorView::Message(invalid_branch(line)))
    } else {
        match groups[2] {
            None => Err(ErrorView::Message(invalid_branch(line) + ": missing name"@)),
            Some(name) => Ok(
                GitBranchView {
                    name: trim_space(name),
                    status: status_of(groups[4]),
                    current: groups[1] is Some,
                },
            ),
        }
    }
}

/// The branch that a line of `git branch -vv` describes.
pub open spec fn parsed_branch(line: Seq<char>) -> Result<GitBranchView, ErrorView> {
    match regex_captures(BRANCH_REGEX@, line) {
        Some(all) => if all.len() > 0 {
            branch_of(line, all[0])
        } else {
            Err(ErrorView::Message(invalid_branch(line)))
        },
        None => Err(ErrorView::Message(invalid_branch(line))),
    }
}

/// The branches that the first `upto` lines describe, or the failure of the
/// first line that describes none.
pub open spec fn parsed_branches(lines: Seq<Seq<char>>, upto: int) -> Result<
    Seq<GitBranchView>,
    ErrorView,
>
    decreases upto,
{
    if upto <= 0 {
        Ok(Seq::empty())
    } else {
        match parsed_branches(lines, upto - 1) {
            Err(e) => Err(e),
            Ok(before) => match parsed_branch(lines[upto - 1]) {
                Err(e) => Err(e),
                Ok(branch) => Ok(before.push(branch)),
            },
        }
    }
}

/// A line that describes no branch fails the lines after it too.
pub proof fn lemma_branches_failure_stays(lines: Seq<Seq<char>>, at: int, upto: int)
    requires
        at <= upto,
        parsed_branches(lines, at) is Err,
    ensures
        parsed_branches(lines, upto) == parsed_branches(lines, at),
    decreases upto - at,
{
    if at < upto {
        lemma_branches_failure_stays(lines, at, upto - 1);
    }
}

/// The branches held in a list, as values.
pub open spec fn branch_views(branches: Seq<GitBranch>) -> Seq<GitBranchView> {
    branches.map_values(|b: GitBranch| b@)
}

/// The message for `count` changes that are not committed.
pub open spec fn uncommitted(count: nat) -> Seq<char> {
    "you have "@ + decimal(count) + if count == 1 {
        " uncommitted change, please handle it first"@
    } else {
        " uncommitted changes, please handle them first"@
    }
}

/// The position of the first line at or after `from` that, without white
/// space at its ends, begins with `HEAD branch:`.
pub open spec fn head_line(lines: Seq<Seq<char>>, from: int) -> Option<int>
    decreases lines.len() - from,
{
    if from < 0 || from >= lines.len() {
        None
    } else if starts_with(trim_space(lines[from]), HEAD_BRANCH_PREFIX@) {
        Some(from)
    } else {
        head_line(lines, from + 1)
    }
}

/// The default branch of `remote` that its head reference names: what
/// follows `refs/remotes/`, the remote and a slash.
pub open spec fn symbolic_branch(remote: Seq<char>, output: Seq<char>) -> Result<
    Seq<char>,
    ErrorView,
> {
    let prefix = "refs/remotes/"@ + remote + "/"@;
    if output.len() == 0 {
        Err(ErrorView::Message("default branch is empty"@))
    } else if starts_with(output, prefix) {
        Ok(output.skip(prefix.len() as int))
    } else {
        Err(ErrorView::Message("invalid ref output by git: "@ + output))
    }
}

/// The default branch that `git remote show` names: what follows
/// `HEAD branch:` on the first line that begins so, without white space at
/// its ends.
pub open spec fn shown_branch(shown: Seq<char>) -> Result<Seq<char>, ErrorView> {
    let lines = split_text(shown, '\n');
    match head_line(lines, 0) {
        None => Err(
            ErrorView::Message(
                "no default branch returned by git remote show, please check your git command"@,
            ),
        ),
        Some(i) => {
            let branch = trim_space(
                trim_space(lines[i]).skip(HEAD_BRANCH_PREFIX@.len() as int),
            );
            if branch.len() == 0 {
                Err(ErrorView::Message("default branch returned by git remote show is empty"@))
            } else {
                Ok(branch)
            }
        },
    }
}

/// The text of a literal with the text of `more` after it.
fn literal_then(head: &str, more: &Vec<char>, tail: &str) -> (r: String)
    ensures
        r@ == head@ + more@ + tail@,
{
    let mut out = chars_of(head);
    append_chars(&mut out, more);
    append_chars(&mut out, &chars_of(tail));
    string_of(&out)
}

impl GitBranch {
    /// The status that a tracking note stands for.
    pub fn status(note: &Option<String>) -> (r: BranchStatus)
        ensures
            r == status_of(
                match *note {
                    Some(s) => Some(s@),
                    None => None,
                },
            ),
    {
        match note {
            None => BranchStatus::Detached,
            Some(text) => {
                let chars = chars_of(text.as_str());
                let ahead = contains_chars(&chars, &chars_of("ahead"));
                let behind = contains_chars(&chars, &chars_of("behind"));
                if contains_chars(&chars, &chars_of("gone")) {
                    BranchStatus::Gone
                } else if ahead && behind {
                    BranchStatus::Conflict
                } else if ahead {
                    BranchStatus::Ahead
                } else if behind {
                    BranchStatus::Behind
                } else {
                    BranchStatus::Sync
                }
            },
        }
    }

    /// The branch that the groups of a line stand for.
    pub fn from_groups(line: &str, groups: &Vec<Option<String>>) -> (r: Result<GitBranch, Error>)
        ensures
            match r {
                Ok(branch) => branch_of(line@, groups_view(groups@)) == Ok::<
                    GitBranchView,
                    ErrorView,
                >(branch@),
                Err(e) => branch_of(line@, groups_view(groups@)) == Err::<
                    GitBranchView,
                    ErrorView,
                >(e@),
            },
    {
        let line_chars = chars_of(line);
        if groups.len() != 6 {
            return Err(
                Error::Message(
                    literal_then(
                        "invalid branch description ",
                        &line_chars,
                        ", please check your git command",
                    ),
                ),
            );
        }
        let name = match &groups[2] {
            Some(name) => string_of(&trim_space_chars(&chars_of(name.as_str()))),
            None => {
                let mut text = chars_of("invalid branch description ");
                append_chars(&mut text, &line_chars);
                append_chars(&mut text, &chars_of(", please check your git command"));
                append_chars(&mut text, &chars_of(": missing name"));
                return Err(Error::Message(string_of(&text)));
            },
        };
        let status = GitBranch::status(&groups[4]);
        let current = groups[1].is_some();
        Ok(GitBranch { name, status, current })
    }

    /// The branch that a line of `git branch -vv` describes.
    pub fn parse(line: &str) -> (r: Result<GitBranch, Error>)
        ensures
            match r {
                Ok(branch) => parsed_branch(line@) == Ok::<GitBranchView, ErrorView>(branch@),
                Err(e) => parsed_branch(line@) == Err::<GitBranchView, ErrorView>(e@),
            },
    {
        match captures(BRANCH_REGEX, line) {
            Some(all) => {
                if all.len() > 0 {
                    GitBranch::from_groups(line, &all[0])
                } else {
                    Err(
                        Error::Message(
                            literal_then(
                                "invalid branch description ",
                                &chars_of(line),
                                ", please check your git command",
                            ),
                        ),
                    )
                }
            },
            None => Err(
                Error::Message(
                    literal_then(
                        "invalid branch description ",
                        &chars_of(line),
                        ", please check your git command",
                    ),
                ),
            ),
        }
    }

    /// The branches that `git branch -vv` printed, one for each line.
    pub fn list(output: &str) -> (r: Result<Vec<GitBranch>, Error>)
        ensures
            match r {
                Ok(branches) => parsed_branches(
                    split_text(output@, '\n'),
                    split_text(output@, '\n').len() as int,
                ) == Ok::<Seq<GitBranchView>, ErrorView>(branch_views(branches@)),
                Err(e) => parsed_branches(
                    split_text(output@, '\n'),
                    split_text(output@, '\n').len() as int,
                ) == Err::<Seq<GitBranchView>, ErrorView>(e@),
            },
    {
        let lines = split_chars_on(&chars_of(output), '\n');
        let ghost all = split_text(output@, '\n');
        let mut branches: Vec<GitBranch> = Vec::new();
        let mut i: usize = 0;
        proof {
            assert(branch_views(branches@) =~= Seq::<GitBranchView>::empty());
        }
        while i < lines.len()
            invariant
                i <= lines.len(),
                all == lines@.map_values(|p: Vec<char>| p@),
                all == split_text(output@, '\n'),
                parsed_branches(all, i as int) == Ok::<Seq<GitBranchView>, ErrorView>(
                    branch_views(branches@),
                ),
            decreases lines.len() - i,
        {
            let line = string_of(&lines[i]);
            let ghost before = branches@;
            match GitBranch::parse(line.as_str()) {
                Ok(branch) => {
                    branches.push(branch);
                    proof {
                        assert(branch_views(branches@) =~= branch_views(before).push(branch@));
                    }
                },
                Err(e) => {
                    proof {
                        lemma_branches_failure_stays(all, i + 1, lines.len() as int);
                    }
                    return Err(e);
                },
            }
            i += 1;
        }
        Ok(branches)
    }

    /// The reference that names the head branch of `remote`.
    pub fn head_ref(remote: &str) -> (r: String)
        ensures
            r@ == "refs/remotes/"@ + remote@ + "/HEAD"@,
    {
        literal_then("refs/remotes/", &chars_of(remote), "/HEAD")
    }

    /// The default branch of `remote` from what `git symbolic-ref` printed
    /// for its head: what follows `refs/remotes/`, the remote and a slash.
    pub fn from_symbolic_ref(remote: &str, output: &str) -> (r: Result<String, Error>)
        ensures
            text_outcome(r) == symbolic_branch(remote@, output@),
    {
        let out = chars_of(output);
        if out.len() == 0 {
            return Err(Error::Message("default branch is empty".to_owned()));
        }
        let mut prefix = chars_of("refs/remotes/");
        append_chars(&mut prefix, &chars_of(remote));
        append_chars(&mut prefix, &chars_of("/"));
        if starts_with_chars(&out, &prefix) {
            let branch = slice_of(&out, prefix.len(), out.len());
            proof {
                assert(branch@ =~= output@.skip(prefix@.len() as int));
            }
            Ok(string_of(&branch))
        } else {
            let mut text = chars_of("invalid ref output by git: ");
            append_chars(&mut text, &out);
            Err(Error::Message(string_of(&text)))
        }
    }

    /// The default branch from what `git remote show` printed: what follows
    /// `HEAD branch:` on the first line that begins so, without white space
    /// at its ends.
    pub fn from_remote_show(output: &str) -> (r: Result<String, Error>)
        ensures
            text_outcome(r) == shown_branch(output@),
    {
        let lines = split_chars_on(&chars_of(output), '\n');
        let ghost all = split_text(output@, '\n');
        let prefix = chars_of(HEAD_BRANCH_PREFIX);
        let mut i: usize = 0;
        while i < lines.len()
            invariant
                i <= lines.len(),
                all == lines@.map_values(|p: Vec<char>| p@),
                all == split_text(output@, '\n'),
                prefix@ == HEAD_BRANCH_PREFIX@,
                head_line(all, 0) == head_line(all, i as int),
            decreases lines.len() - i,
        {
            let line = trim_space_chars(&lines[i]);
            assert(line@ == trim_space(all[i as int]));
            if starts_with_chars(&line, &prefix) {
                let rest = slice_of(&line, prefix.len(), line.len());
                proof {
                    assert(rest@ =~= line@.skip(prefix@.len() as int));
                }
                let branch = trim_space_chars(&rest);
                if branch.len() == 0 {
                    return Err(
                        Error::Message(
                            "default branch returned by git remote show is empty".to_owned(),
                        ),
                    );
                }
                return Ok(string_of(&branch));
            }
            i += 1;
        }
        Err(
            Error::Message(
                "no default branch returned by git remote show, please check your git command".to_owned(),
            ),
        )
    }

    /// The default branch of `remote`: from its head reference where git
    /// could name it, and else from what `git remote show` printed.
    pub fn default_by_remote(remote: &str, head: Option<&str>, shown: &str) -> (r: Result<
        String,
        Error,
    >)
        ensures
            text_outcome(r) == match head {
                Some(out) => symbolic_branch(remote@, out@),
                None => shown_branch(shown@),
            },
    {
        match head {
            Some(out) => GitBranch::from_symbolic_ref(remote, out),
            None => GitBranch::from_remote_show(shown),
        }
    }

    /// The default branch of the remote `origin`.
    pub fn default(head: Option<&str>, shown: &str) -> (r: Result<String, Error>)
        ensures
            text_outcome(r) == match head {
                Some(out) => symbolic_branch("origin"@, out@),
                None => shown_branch(shown@),
            },
    {
        GitBranch::default_by_remote("origin", head, shown)
    }

    /// Nothing where `git status -s` printed nothing; else a failure that
    /// counts the changes, one for each line.
    pub fn ensure_no_uncommitted(output: &str) -> (r: Result<(), Error>)
        ensures
            output@.len() == 0 ==> r is Ok,
            output@.len() > 0 ==> (r matches Err(e) && e@ == ErrorView::Message(
                uncommitted(split_text(output@, '\n').len()),
            )),
    {
        let out = chars_of(output);
        if out.len() == 0 {
            return Ok(());
        }
        let lines = split_chars_on(&out, '\n');
        proof {
            assert(lines@.map_values(|p: Vec<char>| p@).len() == lines.len());
        }
        let count = lines.len();
        let mut text = chars_of("you have ");
        append_chars(&mut text, &decimal_chars(count as u64));
        if count == 1 {
            append_chars(&mut text, &chars_of(" uncommitted change, please handle it first"));
        } else {
            append_chars(&mut text, &chars_of(" uncommitted changes, please handle them first"));
        }
        Err(Error::Message(string_of(&text)))
    }
}

/// A remote of the repository, by its name.
#[derive(Debug, PartialEq, Eq)]
pub struct GitRemote(pub String);

/// The names held in a list of remotes.
pub open spec fn remote_views(remotes: Seq<GitRemote>) -> Seq<Seq<char>> {
    remotes.map_values(|r: GitRemote| r.0@)
}

/// What building the remote to work against comes to.
#[derive(Debug, PartialEq, Eq)]
pub enum Built {
    /// The remote is there.
    Ready(GitRemote),
    /// The remote `upstream` is still to be added: the hosting service is to
    /// be asked for the repository that this one was forked from.
    Missing,
}

impl GitRemote {
    /// The remotes that `git remote` printed, one for each line.
    pub fn list(output: &str) -> (r: Vec<GitRemote>)
        ensures
            remote_views(r@) == split_text(output@, '\n'),
    {
        let lines = split_chars_on(&chars_of(output), '\n');
        let ghost all = split_text(output@, '\n');
        let mut remotes: Vec<GitRemote> = Vec::new();
        let mut i: usize = 0;
        proof {
            assert(remote_views(remotes@) =~= all.take(0));
        }
        while i < lines.len()
            invariant
                i <= lines.len(),
                all == lines@.map_values(|p: Vec<char>| p@),
                remote_views(remotes@) == all.take(i as int),
            decreases lines.len() - i,
        {
            let ghost before = remotes@;
            remotes.push(GitRemote(string_of(&lines[i])));
            proof {
                assert(remote_views(remotes@) =~= remote_views(before).push(all[i as int]));
                assert(all.take(i + 1) =~= all.take(i as int).push(all[i as int]));
            }
            i += 1;
        }
        proof {
            assert(all.take(lines.len() as int) =~= all);
        }
        remotes
    }

    /// The remote to work against: `origin`, or, where the upstream is asked
    /// for, the remote `upstream` if the repository has one.
    pub fn build(upstream: bool, remotes: &Vec<GitRemote>) -> (r: Built)
        ensures
            match r {
                Built::Ready(remote) => if upstream {
                    remote.0@ == "upstream"@ && remote_views(remotes@).contains("upstream"@)
                } else {
                    remote.0@ == "origin"@
                },
                Built::Missing => upstream && !remote_views(remotes@).contains("upstream"@),
            },
    {
        if !upstream {
            return Built::Ready(GitRemote("origin".to_owned()));
        }
        let wanted = chars_of("upstream");
        let ghost all = remote_views(remotes@);
        let mut i: usize = 0;
        while i < remotes.len()
            invariant
                i <= remotes.len(),
                upstream,
                wanted@ == "upstream"@,
                all == remote_views(remotes@),
                forall|j: int| 0 <= j < i ==> all[j] != "upstream"@,
            decreases remotes.len() - i,
        {
            if same_chars(&chars_of(remotes[i].0.as_str()), &wanted) {
                assert(all[i as int] == "upstream"@);
                return Built::Ready(GitRemote("upstream".to_owned()));
            }
            i += 1;
        }
        Built::Missing
    }

    /// The branch of the remote to work against: the remote, a slash and the
    /// branch.
    pub fn target(&self, branch: &str) -> (r: String)
        ensures
            r@ == self.0@ + "/"@ + branch@,
    {
        let mut out = chars_of(self.0.as_str());
        append_chars(&mut out, &chars_of("/"));
        append_chars(&mut out, &chars_of(branch));
        string_of(&out)
    }
}

/// A tag, by its name.
#[derive(Debug, PartialEq, Eq)]
pub struct GitTag(pub String);

/// The names held in a list of tags.
pub open spec fn tag_views(tags: Seq<GitTag>) -> Seq<Seq<char>> {
    tags.map_values(|t: GitTag| t.0@)
}

/// The lines among the first `upto` that hold more than white space, each
/// without white space at its ends.
pub open spec fn filled_lines(lines: Seq<Seq<char>>, upto: int) -> Seq<Seq<char>>
    decreases upto,
{
    if upto <= 0 {
        Seq::empty()
    } else if trim_space(lines[upto - 1]).len() == 0 {
        filled_lines(lines, upto - 1)
    } else {
        filled_lines(lines, upto - 1).push(trim_space(lines[upto - 1]))
    }
}

/// The position among the numbers of a tag that a placeholder names, where
/// it names one: the placeholder is made of digits and the number fits.
pub open spec fn placeholder_index(rep: Seq<char>) -> Option<nat> {
    if rep.len() > 0 && all_digits(rep) && decimal_value(rep) <= usize::MAX {
        Some(decimal_value(rep))
    } else {
        None
    }
}

/// What a placeholder is replaced by: the number of the tag at the position
/// it names, or zero where the tag has no such number, and one more where a
/// plus sign follows; a placeholder that names no position stays as it is,
/// without its braces.
pub open spec fn placeholder_value(nums: Seq<u32>, rep: Seq<char>, plus: bool) -> Seq<char> {
    match placeholder_index(rep) {
        None => rep,
        Some(idx) => {
            let num: nat = if idx >= nums.len() {
                0
            } else {
                nums[idx as int] as nat
            };
            if plus {
                decimal(num + 1)
            } else {
                decimal(num)
            }
        },
    }
}

/// The numbers that the first `upto` matches of the number pattern stand
/// for, or none where one of them is no number of at most `i32::MAX`.
pub open spec fn tag_numbers(all: Seq<Groups>, upto: int) -> Option<Seq<u32>>
    decreases upto,
{
    if upto <= 0 {
        Some(Seq::empty())
    } else {
        match tag_numbers(all, upto - 1) {
            None => None,
            Some(before) => {
                let groups = all[upto - 1];
                if groups.len() > 0 && groups[0] is Some && groups[0]->0.len() > 0 && all_digits(
                    groups[0]->0,
                ) && decimal_value(groups[0]->0) <= i32::MAX {
                    Some(before.push(decimal_value(groups[0]->0) as u32))
                } else {
                    None
                }
            },
        }
    }
}

/// What filling a rule for a tag comes to.
pub enum Filled {
    /// The new tag: the rule holds no field of the date.
    Plain(Seq<char>),
    /// The format of the new tag, to be written out for the current time.
    Dated(Seq<char>),
    /// A failure, by its message.
    Failed(Seq<char>),
}

/// What filling `rule` for the tag `tag` comes to: the numbers of the tag
/// are read, each of at most `i32::MAX`; the placeholders of the rule are
/// replaced; and the rule holds fields of the date or none.
pub open spec fn rule_outcome(tag: Seq<char>, rule: Seq<char>) -> Filled {
    match regex_captures(NUM_REGEX@, tag) {
        None => Filled::Failed("unable to parse num regex"@),
        Some(found) => match regex_captures(PLACEHOLDER_REGEX@, rule) {
            None => Filled::Failed("unable to parse rule placeholder regex"@),
            Some(holders) => match tag_numbers(found, found.len() as int) {
                None => Filled::Failed("unable to parse num caps"@),
                Some(nums) => match regex_filled(PLACEHOLDER_REGEX@, rule, nums) {
                    None => Filled::Failed("unable to parse rule placeholder regex"@),
                    Some(filled) => if has_date(holders, holders.len() as int) {
                        Filled::Dated(filled)
                    } else {
                        Filled::Plain(filled)
                    },
                },
            },
        },
    }
}

/// A match that is no number fails the matches after it too.
pub proof fn lemma_numbers_failure_stays(all: Seq<Groups>, at: int, upto: int)
    requires
        at <= upto,
        tag_numbers(all, at) is None,
    ensures
        tag_numbers(all, upto) is None,
    decreases upto - at,
{
    if at < upto {
        lemma_numbers_failure_stays(all, at, upto - 1);
    }
}

/// Whether one of the first `upto` placeholders names no position, and so
/// stands for a field of the date.
pub open spec fn has_date(all: Seq<Groups>, upto: int) -> bool
    decreases upto,
{
    if upto <= 0 {
        false
    } else {
        has_date(all, upto - 1) || all[upto - 1].len() < 2 || all[upto - 1][1] is None
            || placeholder_index(all[upto - 1][1]->0) is None
    }
}

impl GitTag {
    /// The tag of this name.
    pub fn from_str(s: &str) -> (r: GitTag)
        ensures
            r.0@ == s@,
    {
        GitTag(s.to_owned())
    }

    /// The name of the tag.
    pub fn as_str(&self) -> (r: &str)
        ensures
            r@ == self.0@,
    {
        self.0.as_str()
    }

    /// The tags that `git tag` printed: one for each line that holds more
    /// than white space.
    pub fn list(output: &str) -> (r: Vec<GitTag>)
        ensures
            tag_views(r@) == filled_lines(
                split_text(output@, '\n'),
                split_text(output@, '\n').len() as int,
            ),
    {
        let lines = split_chars_on(&chars_of(output), '\n');
        let ghost all = split_text(output@, '\n');
        let mut tags: Vec<GitTag> = Vec::new();
        let mut i: usize = 0;
        proof {
            assert(tag_views(tags@) =~= filled_lines(all, 0));
        }
        while i < lines.len()
            invariant
                i <= lines.len(),
                all == lines@.map_values(|p: Vec<char>| p@),
                tag_views(tags@) == filled_lines(all, i as int),
            decreases lines.len() - i,
        {
            let name = trim_space_chars(&lines[i]);
            let ghost before = tags@;
            if name.len() > 0 {
                tags.push(GitTag(string_of(&name)));
                proof {
                    assert(tag_views(tags@) =~= tag_views(before).push(name@));
                }
            }
            i += 1;
        }
        tags
    }

    /// The latest tag from what `git describe` printed.
    pub fn latest(output: &str) -> (r: Result<GitTag, Error>)
        ensures
            match r {
                Ok(tag) => tag.0@ == trim_space(output@) && tag.0@.len() > 0,
                Err(e) => trim_space(output@).len() == 0 && e@ == ErrorView::Message(
                    "no latest tag"@,
                ),
            },
    {
        let name = trim_space_chars(&chars_of(output));
        if name.len() == 0 {
            return Err(Error::Message("no latest tag".to_owned()));
        }
        Ok(GitTag(string_of(&name)))
    }

    /// What a placeholder is replaced by.
    pub fn placeholder_text(nums: &Vec<u32>, rep: &str, plus: bool) -> (r: String)
        ensures
            r@ == placeholder_value(nums@, rep@, plus),
    {
        let chars = chars_of(rep);
        match parse_decimal(&chars, usize::MAX as u64) {
            None => string_of(&chars),
            Some(idx) => {
                let num: u64 = if idx as usize >= nums.len() {
                    0
                } else {
                    nums[idx as usize] as u64
                };
                if plus {
                    string_of(&decimal_chars(num + 1))
                } else {
                    string_of(&decimal_chars(num))
                }
            },
        }
    }

    /// The numbers that the matches of the number pattern in a tag stand
    /// for.
    pub fn numbers(all: &Vec<Vec<Option<String>>>) -> (r: Option<Vec<u32>>)
        ensures
            match r {
                Some(nums) => tag_numbers(matches_view(all@), all.len() as int) == Some(nums@),
                None => tag_numbers(matches_view(all@), all.len() as int) is None,
            },
    {
        let ghost views = matches_view(all@);
        let mut nums: Vec<u32> = Vec::new();
        let mut i: usize = 0;
        while i < all.len()
            invariant
                i <= all.len(),
                views == matches_view(all@),
                tag_numbers(views, i as int) == Some(nums@),
            decreases all.len() - i,
        {
            let groups = &all[i];
            let found = if groups.len() > 0 {
                match &groups[0] {
                    Some(text) => parse_decimal(&chars_of(text.as_str()), 0x7fff_ffff),
                    None => None,
                }
            } else {
                None
            };
            match found {
                Some(n) => {
                    nums.push(n as u32);
                },
                None => {
                    proof {
                        assert(tag_numbers(views, i + 1) is None);
                        lemma_numbers_failure_stays(views, i + 1, all.len() as int);
                    }
                    return None;
                },
            }
            i += 1;
        }
        Some(nums)
    }

    /// Whether one of the placeholders of a rule stands for a field of the
    /// date.
    pub fn with_date(all: &Vec<Vec<Option<String>>>) -> (r: bool)
        ensures
            r == has_date(matches_view(all@), all.len() as int),
    {
        let ghost views = matches_view(all@);
        let mut found = false;
        let mut i: usize = 0;
        while i < all.len()
            invariant
                i <= all.len(),
                views == matches_view(all@),
                found == has_date(views, i as int),
            decreases all.len() - i,
        {
            let groups = &all[i];
            let names_position = if groups.len() >= 2 {
                match &groups[1] {
                    Some(rep) => parse_decimal(
                        &chars_of(rep.as_str()),
                        usize::MAX as u64,
                    ).is_some(),
                    None => false,
                }
            } else {
                false
            };
            found = found || !names_position;
            i += 1;
        }
        found
    }

    /// The tag that a filled rule comes to: the rule itself where it holds no
    /// field of the date; else what it was written out to for the current
    /// time, which must have worked.
    pub fn dated(filled: String, with_date: bool, written: Option<String>) -> (r: Result<
        GitTag,
        Error,
    >)
        ensures
            match r {
                Ok(tag) => tag.0 == if with_date {
                    written->0
                } else {
                    filled
                } && (with_date ==> written is Some),
                Err(e) => with_date && written is None && e@ == ErrorView::Message(
                    "unable to format the date of the rule"@,
                ),
            },
    {
        if with_date {
            match written {
                Some(text) => Ok(GitTag(text)),
                None => Err(Error::Message("unable to format the date of the rule".to_owned())),
            }
        } else {
            Ok(GitTag(filled))
        }
    }

    /// The tag that follows this one by `rule`: the rule with each
    /// placeholder replaced by the number of this tag that it names, or by
    /// one more; where the rule holds fields of the date, the result is
    /// written out for the current local time.
    pub fn apply_rule(&self, rule: &str) -> (r: Result<GitTag, Error>)
        ensures
            match rule_outcome(self.0@, rule@) {
                Filled::Plain(filled) => r matches Ok(tag) && tag.0@ == filled,
                Filled::Dated(filled) => r matches Err(e) ==> e@ == ErrorView::Message(
                    "unable to format the date of the rule"@,
                ),
                Filled::Failed(message) => r matches Err(e) && e@ == ErrorView::Message(message),
            },
    {
        let found = match captures(NUM_REGEX, self.0.as_str()) {
            Some(found) => found,
            None => {
                return Err(Error::Message("unable to parse num regex".to_owned()));
            },
        };
        let holders = match captures(PLACEHOLDER_REGEX, rule) {
            Some(holders) => holders,
            None => {
                return Err(Error::Message("unable to parse rule placeholder regex".to_owned()));
            },
        };
        proof {
            assert(matches_view(found@).len() == found.len());
            assert(matches_view(holders@).len() == holders.len());
        }
        let nums = match GitTag::numbers(&found) {
            Some(nums) => nums,
            None => {
                return Err(Error::Message("unable to parse num caps".to_owned()));
            },
        };
        let filled = match fill_placeholders(PLACEHOLDER_REGEX, rule, &nums) {
            Some(filled) => filled,
            None => {
                return Err(Error::Message("unable to parse rule placeholder regex".to_owned()));
            },
        };
        let with_date = GitTag::with_date(&holders);
        let written = if with_date {
            format_now(filled.as_str())
        } else {
            None
        };
        GitTag::dated(filled, with_date, written)
    }
}

} // verus!
