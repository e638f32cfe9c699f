//! The commands and their arguments.

pub mod attach;
pub mod branch;
pub mod detach;
pub mod home;
pub mod init;
pub mod jump;
pub mod list;
pub mod merge;
pub mod remove;
pub mod reset;
pub mod squash;
pub mod tag;

pub use crate::text::texts;

use vstd::prelude::*;

verus! {

/// What the tool is asked to do.
#[derive(Debug, PartialEq, Eq)]
pub enum Cmd {
    Home(Home),
    Remove(Remove),
    Clean(Clean),
    Attach(Attach),
    Detach(Detach),
    List(List),
    Init(Init),
    Config(Config),
    Branch(Branch),
    Merge(Merge),
    Open(Open),
    Rebase(Rebase),
    Squash(Squash),
    Reset(Reset),
    Jump(Jump),
    Tag(Tag),
}

/// Print the home path of a repository.
#[derive(Debug, PartialEq, Eq)]
pub struct Home {
    /// Remote and name of the repository; a keyword may stand for both.
    pub args: Vec<String>,
    /// Create the repository.
    pub create: bool,
    /// Search the repository with the hosting service of the remote.
    pub search: bool,
}

/// Remove a repository.
#[derive(Debug, PartialEq, Eq)]
pub struct Remove {
    /// The remote of the repository.
    pub remote: String,
    /// The name of the repository.
    pub name: String,
    /// Remove without asking.
    pub force: bool,
}

/// Clean unused directories in the workspace.
#[derive(Debug, PartialEq, Eq)]
pub struct Clean {
    /// Show what would be removed, and remove nothing.
    pub dry_run: bool,
}

/// Attach the current path to a repository.
#[derive(Debug, PartialEq, Eq)]
pub struct Attach {
    /// The remote of the repository.
    pub remote: String,
    /// The name of the repository.
    pub name: String,
    /// The directory to attach; the current one by default.
    pub dir: Option<String>,
    /// Overwrite the remote of the git configuration.
    pub remote_config: bool,
    /// Overwrite the user of the git configuration.
    pub user_config: bool,
}

/// Detach the current path from a repository.
#[derive(Debug, PartialEq, Eq)]
pub struct Detach {
    /// The directory to detach; the current one by default.
    pub dir: Option<String>,
}

/// List remotes or repositories.
#[derive(Debug, PartialEq, Eq)]
pub struct List {
    /// The remote whose repositories are listed, if any.
    pub args: Vec<String>,
    /// Show the groups only.
    pub group: bool,
    /// Show the keywords only.
    pub keyword: bool,
    /// Show the remotes only.
    pub remote: bool,
}

/// Print the script that sets the shell up.
#[derive(Debug, PartialEq, Eq)]
pub struct Init {
    /// The name of the command; `gz` by default.
    pub cmd: Option<String>,
    /// The name of the home command; `zz` by default.
    pub home_cmd: Option<String>,
    /// The name of the jump command; `zj` by default.
    pub jump_cmd: Option<String>,
}

/// Edit the configuration file.
#[derive(Debug, PartialEq, Eq)]
pub struct Config {
    /// The editor to use; one is looked for by default.
    pub editor: Option<String>,
}

/// Work on branches.
#[derive(Debug, PartialEq, Eq)]
pub struct Branch {
    /// The name of the branch, if any.
    pub args: Vec<String>,
    /// Show the status of each branch too.
    pub all: bool,
    /// Bring the branches in line with the remote.
    pub sync: bool,
    /// Create the branch.
    pub create: bool,
    /// Delete the branch.
    pub delete: bool,
    /// Push the change to the remote.
    pub push: bool,
    /// Show the branches for completion.
    pub cmp: bool,
}

/// Create or open a merge request.
#[derive(Debug, PartialEq, Eq)]
pub struct Merge {
    /// Merge into the repository that this one was forked from.
    pub upstream: bool,
    /// The branch to merge; the current one by default.
    pub source: Option<String>,
    /// The branch to merge into; the default branch by default.
    pub target: Option<String>,
}

/// Open the repository in the browser.
#[derive(Debug, PartialEq, Eq)]
pub struct Open {
    /// Open the current branch.
    pub branch: bool,
}

/// Rebase the current branch.
#[derive(Debug, PartialEq, Eq)]
pub struct Rebase {
    /// The branch to rebase on; the default branch by default.
    pub args: Vec<String>,
    /// Rebase on the repository that this one was forked from.
    pub upstream: bool,
}

/// Squash several commits into one.
#[derive(Debug, PartialEq, Eq)]
pub struct Squash {
    /// The branch to compare with; the default branch by default.
    pub args: Vec<String>,
    /// Compare with the repository that this one was forked from.
    pub upstream: bool,
    /// The message of the commit.
    pub message: Option<String>,
}

/// Reset the branch to what the remote has.
#[derive(Debug, PartialEq, Eq)]
pub struct Reset {
    /// The branch to reset to; the current one by default.
    pub args: Vec<String>,
    /// Reset to the default branch.
    pub default: bool,
    /// Reset to the repository that this one was forked from.
    pub upstream: bool,
}

/// Jump to a repository by a keyword.
#[derive(Debug, PartialEq, Eq)]
pub struct Jump {
    /// The keyword.
    pub keyword: String,
}

/// Work on tags.
#[derive(Debug, PartialEq, Eq)]
pub struct Tag {
    /// The name of the tag, if any.
    pub args: Vec<String>,
    /// The rule by which the new tag is made.
    pub rule: Option<String>,
    /// Create a tag.
    pub create: bool,
    /// Delete a tag.
    pub delete: bool,
    /// Push the change to the remote.
    pub push: bool,
    /// Show the rules for completion.
    pub show_rules: bool,
}

/// The command line made of one word.
pub fn line1(a: &str) -> (r: Vec<String>)
    ensures
        texts(r@) == seq![a@],
{
    let mut out: Vec<String> = Vec::new();
    out.push(a.to_owned());
    proof {
        assert(texts(out@) =~= seq![a@]);
    }
    out
}

/// The command line made of two words.
pub fn line2(a: &str, b: &str) -> (r: Vec<String>)
    ensures
        texts(r@) == seq![a@, b@],
{
    let mut out: Vec<String> = Vec::new();
    out.push(a.to_owned());
    out.push(b.to_owned());
    proof {
        assert(texts(out@) =~= seq![a@, b@]);
    }
    out
}

/// The command line made of three words.
pub fn line3(a: &str, b: &str, c: &str) -> (r: Vec<String>)
    ensures
        texts(r@) == seq![a@, b@, c@],
{
    let mut out: Vec<String> = Vec::new();
    out.push(a.to_owned());
    out.push(b.to_owned());
    out.push(c.to_owned());
    proof {
        assert(texts(out@) =~= seq![a@, b@, c@]);
    }
    out
}

/// The command line made of four words.
pub fn line4(a: &str, b: &str, c: &str, d: &str) -> (r: Vec<String>)
    ensures
        texts(r@) == seq![a@, b@, c@, d@],
{
    let mut out: Vec<String> = Vec::new();
    out.push(a.to_owned());
    out.push(b.to_owned());
    out.push(c.to_owned());
    out.push(d.to_owned());
    proof {
        assert(texts(out@) =~= seq![a@, b@, c@, d@]);
    }
    out
}

/// The command lines held in a list.
pub open spec fn lines(commands: Seq<Vec<String>>) -> Seq<Seq<Seq<char>>> {
    commands.map_values(|c: Vec<String>| texts(c@))
}

} // verus!
