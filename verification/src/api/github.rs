//! What is asked of Github.

use vstd::prelude::*;
use crate::api::MergeOption;
use crate::errors::{Error, ErrorView};
use crate::text::{append_chars, chars_of, string_of};
use crate::util::{name_base, name_group, split_chars};

verus! {

/// The pull request that a merge stands for.
#[derive(Debug, PartialEq, Eq)]
pub struct GithubPullOption {
    /// The owner of the repository that the request goes to.
    pub owner: String,
    /// The name of that repository.
    pub name: String,
    /// The branch to merge, with its owner where the request goes upstream.
    pub head: String,
    /// The owner of the branch to merge, where the request goes upstream.
    pub head_owner: String,
}

/// The mathematical value of a pull request.
pub struct GithubPullView {
    pub owner: Seq<char>,
    pub name: Seq<char>,
    pub head: Seq<char>,
    pub head_owner: Seq<char>,
}

impl View for GithubPullOption {
    type V = GithubPullView;

    open spec fn view(&self) -> GithubPullView {
        GithubPullView {
            owner: self.owner@,
            name: self.name@,
            head: self.head@,
            head_owner: self.head_owner@,
        }
    }
}

/// Whether a name is `owner/name` with neither part empty.
pub open spec fn is_repo_name(repo: Seq<char>) -> bool {
    name_group(repo).len() > 0 && name_base(repo).len() > 0
}

/// The message for a name that is not `owner/name`.
pub open spec fn invalid_repo_name(repo: Seq<char>) -> Seq<char> {
    "invalid github repository name "@ + repo
}

/// The pull request that a merge stands for: to the repository itself, or,
/// where it has an upstream, to the upstream with the owner before the
/// branch.
pub open spec fn pull_of(
    repo: Seq<char>,
    upstream: Option<Seq<char>>,
    source: Seq<char>,
) -> Result<GithubPullView, ErrorView> {
    if !is_repo_name(repo) {
        Err(ErrorView::Message(invalid_repo_name(repo)))
    } else {
        match upstream {
            None => Ok(
                GithubPullView {
                    owner: name_group(repo),
                    name: name_base(repo),
                    head: source,
                    head_owner: Seq::empty(),
                },
            ),
            Some(up) => if !is_repo_name(up) {
                Err(ErrorView::Message(invalid_repo_name(up)))
            } else {
                Ok(
                    GithubPullView {
                        owner: name_group(up),
                        name: name_base(up),
                        head: name_group(repo) + ":"@ + source,
                        head_owner: name_group(repo),
                    },
                )
            },
        }
    }
}

/// The search for the open pull request of a merge.
pub open spec fn merge_query(
    repo: Seq<char>,
    upstream: Option<Seq<char>>,
    source: Seq<char>,
    target: Seq<char>,
    head_owner: Seq<char>,
) -> Seq<char> {
    match upstream {
        Some(up) => "is:open is:pr author:"@ + head_owner + " head:"@ + source + " base:"@
            + target + " repo:"@ + up,
        None => "is:open is:pr head:"@ + source + " base:"@ + target + " repo:"@ + repo,
    }
}

/// The repository that one was forked from, where Github names it: the
/// repository must be a fork and its source must have a full name.
pub open spec fn upstream_of(fork: Option<bool>, source: Option<Option<Seq<char>>>) -> Option<
    Seq<char>,
> {
    if fork == Some(true) {
        match source {
            Some(Some(name)) => Some(name),
            _ => None,
        }
    } else {
        None
    }
}

/// The owner and the name of a repository.
pub fn parse_repo_name(repo: &str) -> (r: Result<(String, String), Error>)
    ensures
        match r {
            Ok((owner, name)) => is_repo_name(repo@) && owner@ == name_group(repo@) && name@
                == name_base(repo@),
            Err(e) => !is_repo_name(repo@) && e@ == ErrorView::Message(invalid_repo_name(repo@)),
        },
{
    let chars = chars_of(repo);
    let (owner, name) = split_chars(&chars);
    if owner.len() == 0 || name.len() == 0 {
        let mut text = chars_of("invalid github repository name ");
        append_chars(&mut text, &chars);
        return Err(Error::Message(string_of(&text)));
    }
    Ok((string_of(&owner), string_of(&name)))
}

/// The pull request that a merge stands for.
pub fn pr_options(opts: &MergeOption) -> (r: Result<GithubPullOption, Error>)
    ensures
        match r {
            Ok(pull) => pull_of(
                opts.repo@,
                match opts.upstream {
                    Some(up) => Some(up@),
                    None => None,
                },
                opts.source@,
            ) == Ok::<GithubPullView, ErrorView>(pull@),
            Err(e) => pull_of(
                opts.repo@,
                match opts.upstream {
                    Some(up) => Some(up@),
                    None => None,
                },
                opts.source@,
            ) == Err::<GithubPullView, ErrorView>(e@),
        },
{
    let (owner, name) = match parse_repo_name(opts.repo.as_str()) {
        Ok(parts) => parts,
        Err(e) => {
            return Err(e);
        },
    };
    match &opts.upstream {
        Some(up) => {
            let (up_owner, up_name) = match parse_repo_name(up.as_str()) {
                Ok(parts) => parts,
                Err(e) => {
                    return Err(e);
                },
            };
            let mut head = chars_of(owner.as_str());
            append_chars(&mut head, &chars_of(":"));
            append_chars(&mut head, &chars_of(opts.source.as_str()));
            Ok(
                GithubPullOption {
                    owner: up_owner,
                    name: up_name,
                    head: string_of(&head),
                    head_owner: owner,
                },
            )
        },
        None => Ok(
            GithubPullOption { owner, name, head: opts.source.clone(), head_owner: String::new() },
        ),
    }
}

/// The search for the open pull request of a merge.
pub fn get_merge(opts: &MergeOption, pull: &GithubPullOption) -> (r: String)
    ensures
        r@ == merge_query(
            opts.repo@,
            match opts.upstream {
                Some(up) => Some(up@),
                None => None,
            },
            opts.source@,
            opts.target@,
            pull.head_owner@,
        ),
{
    let mut out: Vec<char> = Vec::new();
    match &opts.upstream {
        Some(up) => {
            append_chars(&mut out, &chars_of("is:open is:pr author:"));
            append_chars(&mut out, &chars_of(pull.head_owner.as_str()));
            append_chars(&mut out, &chars_of(" head:"));
            append_chars(&mut out, &chars_of(opts.source.as_str()));
            append_chars(&mut out, &chars_of(" base:"));
            append_chars(&mut out, &chars_of(opts.target.as_str()));
            append_chars(&mut out, &chars_of(" repo:"));
            append_chars(&mut out, &chars_of(up.as_str()));
            proof {
                assert(out@ =~= "is:open is:pr author:"@ + pull.head_owner@ + " head:"@
                    + opts.source@ + " base:"@ + opts.target@ + " repo:"@ + up@);
            }
        },
        None => {
            append_chars(&mut out, &chars_of("is:open is:pr head:"));
            append_chars(&mut out, &chars_of(opts.source.as_str()));
            append_chars(&mut out, &chars_of(" base:"));
            append_chars(&mut out, &chars_of(opts.target.as_str()));
            append_chars(&mut out, &chars_of(" repo:"));
            append_chars(&mut out, &chars_of(opts.repo.as_str()));
            proof {
                assert(out@ =~= "is:open is:pr head:"@ + opts.source@ + " base:"@ + opts.target@
                    + " repo:"@ + opts.repo@);
            }
        },
    }
    string_of(&out)
}

/// The repository that one was forked from, from what Github says of it:
/// whether it is a fork, and the full name of its source.
pub fn must_get_upstream(fork: Option<bool>, source: Option<Option<String>>) -> (r: Result<
    String,
    Error,
>)
    ensures
        match r {
            Ok(name) => upstream_of(
                fork,
                match source {
                    Some(Some(s)) => Some(Some(s@)),
                    Some(None) => Some(None),
                    None => None,
                },
            ) == Some(name@),
            Err(e) => upstream_of(
                fork,
                match source {
                    Some(Some(s)) => Some(Some(s@)),
                    Some(None) => Some(None),
                    None => None,
                },
            ) is None && e@ == ErrorView::Message(crate::errors::REPO_NO_UPSTREAM@),
        },
{
    match fork {
        Some(true) => match source {
            Some(Some(name)) => Ok(name),
            _ => Err(Error::Message(crate::errors::REPO_NO_UPSTREAM.to_owned())),
        },
        _ => Err(Error::Message(crate::errors::REPO_NO_UPSTREAM.to_owned())),
    }
}

/// The path under which Github lists the repositories of a group.
pub fn list(group: &str) -> (r: String)
    ensures
        r@ == "users/"@ + group@ + "/repos"@,
{
    let mut out = chars_of("users/");
    append_chars(&mut out, &chars_of(group));
    append_chars(&mut out, &chars_of("/repos"));
    string_of(&out)
}

} // verus!
