//! Time units, name splitting and small helpers shared by the other modules.

pub mod atomic;
pub mod git;
pub mod shell;
pub mod tree;

pub use crate::util::atomic::{
    advance, begin, tmp_name, tmp_name_of, WriteAction, WriteEvent, WriteState,
};
pub use crate::util::git::{BranchStatus, Built, GitBranch, GitRemote, GitTag};
pub use crate::util::shell::{Fzf, Shell};
pub use crate::util::tree::EmptyDir;

use vstd::prelude::*;
use crate::errors::{Error, ErrorView};
use crate::db::Epoch;
use crate::text::{
    chars_of, last_index_of, last_index_of_char, lemma_last_index_of, slice_of, string_of,
};

verus! {

/// A path of the platform, as std holds it.
#[verifier::external_type_specification]
#[verifier::external_body]
pub struct ExPathBuf(std::path::PathBuf);

pub const SECOND: Epoch = 1;

pub const MINUTE: Epoch = 60;

pub const HOUR: Epoch = 3600;

pub const DAY: Epoch = 86400;

pub const WEEK: Epoch = 604800;

/// The separator between the group and the base of a repository name.
pub open spec fn separator() -> char {
    '/'
}

/// The group of a name: what stands before its last separator, or nothing
/// where it has no separator.
pub open spec fn name_group(name: Seq<char>) -> Seq<char> {
    let i = last_index_of(name, separator());
    if i < 0 {
        Seq::empty()
    } else {
        name.subrange(0, i)
    }
}

/// The base of a name: what stands after its last separator, or all of it
/// where it has no separator.
pub open spec fn name_base(name: Seq<char>) -> Seq<char> {
    name.subrange(last_index_of(name, separator()) + 1, name.len() as int)
}

/// A name is its base alone, or its group, a separator and its base; the base
/// holds no separator.
pub proof fn lemma_split_name(name: Seq<char>)
    ensures
        !name_base(name).contains(separator()),
        name.contains(separator()) ==> name == name_group(name) + seq![separator()] + name_base(
            name,
        ),
        !name.contains(separator()) ==> name_group(name).len() == 0 && name_base(name) == name,
{
    lemma_last_index_of(name, separator());
    let i = last_index_of(name, separator());
    let base = name_base(name);
    if base.contains(separator()) {
        let k = choose|k: int| 0 <= k < base.len() && base[k] == separator();
        assert(name[i + 1 + k] == separator());
    }
    if i >= 0 {
        assert(name =~= name_group(name) + seq![separator()] + base);
    } else {
        assert(base =~= name);
        if name.contains(separator()) {
            let k = choose|k: int| 0 <= k < name.len() && name[k] == separator();
            assert(false);
        }
    }
    if !name.contains(separator()) {
        if i >= 0 {
            assert(name[i] == separator());
            assert(false);
        }
    }
}

/// Splits a name held as characters into its group and its base.
pub fn split_chars(name: &Vec<char>) -> (r: (Vec<char>, Vec<char>))
    ensures
        r.0@ == name_group(name@),
        r.1@ == name_base(name@),
{
    proof {
        lemma_last_index_of(name@, separator());
    }
    match last_index_of_char(name, '/') {
        Some(i) => (slice_of(name, 0, i), slice_of(name, i + 1, name.len())),
        None => (Vec::new(), slice_of(name, 0, name.len())),
    }
}

/// Splits a repository name at its last separator into group and base:
/// `"a/b/c"` gives `("a/b", "c")`, and `"c"` gives `("", "c")`.
pub fn split_name(query: &str) -> (r: (String, String))
    ensures
        r.0@ == name_group(query@),
        r.1@ == name_base(query@),
{
    let chars = chars_of(query);
    let (group, base) = split_chars(&chars);
    (string_of(&group), string_of(&base))
}

/// Calls `SystemTime::elapsed` of std on the Unix epoch: the seconds that
/// have passed since then, or none where the clock stands before it. The
/// result depends on the clock, so nothing is promised of it.
#[verifier::external_body]
pub(crate) fn since_epoch() -> (r: Option<Epoch>) {
    match std::time::UNIX_EPOCH.elapsed() {
        Ok(elapsed) => Some(elapsed.as_secs()),
        Err(_) => None,
    }
}

/// What a reading of the clock comes to: the seconds that it gave, or a
/// failure where it stood before the Unix epoch and gave none.
pub fn clock_time(elapsed: Option<Epoch>) -> (r: Result<Epoch, Error>)
    ensures
        match elapsed {
            Some(seconds) => r == Ok::<Epoch, Error>(seconds),
            None => (r matches Err(e) && e@ == ErrorView::Message(
                "system clock set to invalid time"@,
            )),
        },
{
    match elapsed {
        Some(seconds) => Ok(seconds),
        None => Err(Error::Message("system clock set to invalid time".to_owned())),
    }
}

/// The time now, in seconds since the Unix epoch: what `clock_time` makes of
/// a reading of the clock.
pub fn current_time() -> (r: Result<Epoch, Error>)
    ensures
        r matches Err(e) ==> e@ == ErrorView::Message("system clock set to invalid time"@),
{
    clock_time(since_epoch())
}

/// Whether a text asks for no expansion: it holds no `$` and does not begin
/// with a tilde.
pub open spec fn is_plain(s: Seq<char>) -> bool {
    !s.contains('$') && (s.len() == 0 || s[0] != '~')
}

/// Calls `shellexpand::full`: `s` with a leading tilde and the variables of
/// the environment expanded, or none where a variable is not set. A text
/// without `$` and without a leading tilde comes back as it is; of any other
/// text the result depends on the environment, so nothing is promised of it.
#[verifier::external_body]
fn expanded(s: &str) -> (r: Option<String>)
    ensures
        match r {
            Some(text) => is_plain(s@) ==> text@ == s@,
            None => !is_plain(s@),
        },
{
    match shellexpand::full(s) {
        Ok(text) => Some(text.into_owned()),
        Err(_) => None,
    }
}

/// What an expansion of `s` comes to: the expanded text, or a failure that
/// names `s` where there is none.
pub fn expansion(s: &str, expanded: Option<String>) -> (r: Result<String, Error>)
    ensures
        match expanded {
            Some(text) => r == Ok::<String, Error>(text),
            None => (r matches Err(e) && e@ == ErrorView::Expansion(s@)),
        },
{
    match expanded {
        Some(text) => Ok(text),
        None => Err(Error::Expansion(s.to_owned())),
    }
}

/// `s` with a leading tilde and the variables of the environment expanded.
/// A text that asks for no expansion stays as it is; a variable that is not
/// set fails the expansion.
pub fn expand_env(s: &str) -> (r: Result<String, Error>)
    ensures
        is_plain(s@) ==> (r matches Ok(text) && text@ == s@),
        r matches Err(e) ==> e@ == ErrorView::Expansion(s@),
{
    expansion(s, expanded(s))
}

/// The text that a path holds, where it holds valid Unicode: what
/// `Path::to_str` of std returns for it.
pub uninterp spec fn path_text(path: std::path::PathBuf) -> Option<Seq<char>>;

/// Calls `Path::to_str` of std: the path as a text, or none where it is not
/// valid Unicode.
#[verifier::external_body]
fn to_str(path: &std::path::PathBuf) -> (r: Option<&str>)
    ensures
        match r {
            Some(text) => path_text(*path) == Some(text@),
            None => path_text(*path) is None,
        },
{
    path.to_str()
}

/// The path as a text, which it is expected to be: the text that the path
/// holds, or a failure where it holds no valid Unicode.
pub fn path_to_str(path: &std::path::PathBuf) -> (r: Result<&str, Error>)
    ensures
        match r {
            Ok(text) => path_text(*path) == Some(text@),
            Err(e) => path_text(*path) is None && e@ == ErrorView::Message(
                "could not parse path"@,
            ),
        },
{
    match to_str(path) {
        Some(text) => Ok(text),
        None => Err(Error::Message("could not parse path".to_owned())),
    }
}

/// What `Path::join` of std makes of `base` and `part`, as a text, on the
/// platform that the library is built for.
pub uninterp spec fn joined_path(base: Seq<char>, part: Seq<char>) -> Seq<char>;

/// Calls `Path::join` of std: `base` with `part` joined to it as a path.
#[verifier::external_body]
pub(crate) fn join_path(base: &str, part: &str) -> (r: String)
    ensures
        r@ == joined_path(base@, part@),
{
    std::path::Path::new(base).join(part).to_string_lossy().into_owned()
}

/// Whether `a` and `b` name the same path as `Path` of std compares paths:
/// component by component, on the platform that the library is built for.
pub uninterp spec fn same_path(a: Seq<char>, b: Seq<char>) -> bool;

/// Calls `Path::eq` of std: whether `a` and `b` are the same path.
#[verifier::external_body]
pub(crate) fn paths_equal(a: &str, b: &str) -> (r: bool)
    ensures
        r == same_path(a@, b@),
{
    std::path::Path::new(a) == std::path::Path::new(b)
}

/// What an edited text comes to: the text, unless nothing was edited or the
/// text is empty where one is required.
pub fn edit(text: Option<String>, required: bool) -> (r: Result<String, Error>)
    ensures
        match text {
            Some(s) => if required && s@.len() == 0 {
                (r matches Err(e) && e@ == ErrorView::Message("edit content cannot be empty"@))
            } else {
                r == Ok::<String, Error>(s)
            },
            None => (r matches Err(e) && e@ == ErrorView::Message("you did not edit anything"@)),
        },
{
    match text {
        Some(s) => {
            if required && s.as_str().is_empty() {
                Err(Error::Message("edit content cannot be empty".to_owned()))
            } else {
                Ok(s)
            }
        },
        None => Err(Error::Message("you did not edit anything".to_owned())),
    }
}

/// What the answer to a question comes to: nothing where the user agreed,
/// and a silent end of the process where the user declined.
pub fn confirm(agreed: bool) -> (r: Result<(), Error>)
    ensures
        agreed ==> r is Ok,
        !agreed ==> (r matches Err(e) && e@ == ErrorView::Declined),
{
    if agreed {
        Ok(())
    } else {
        Err(Error::Declined)
    }
}

/// The first of the positional arguments, where there is one.
pub fn option_arg<'a>(args: &'a Vec<String>) -> (r: Option<&'a str>)
    ensures
        args.len() == 0 ==> r is None,
        args.len() > 0 ==> r is Some && r->0@ == args[0]@,
{
    if args.len() == 0 {
        None
    } else {
        Some(args[0].as_str())
    }
}

} // verus!
