//! What is asked of a hosting service, and what is made of its answers.

pub mod github;
pub mod gitlab;

use vstd::prelude::*;
use crate::config::{Remote, API};
use crate::errors::{Error, ErrorView};
use crate::text::{
    append_chars, chars_of, decimal, decimal_chars, split_chars_on, split_text, string_of,
};
use crate::util::{join_path, joined_path};

verus! {

/// A request to merge one branch into another.
#[derive(Debug, PartialEq, Eq)]
pub struct MergeOption {
    pub repo: String,
    pub upstream: Option<String>,
    pub title: String,
    pub body: String,
    pub source: String,
    pub target: String,
}

/// What shows the branches of a merge: `source => target`, each with its
/// repository where the merge goes to an upstream.
pub open spec fn merge_line(
    repo: Seq<char>,
    upstream: Option<Seq<char>>,
    source: Seq<char>,
    target: Seq<char>,
) -> Seq<char> {
    match upstream {
        Some(up) => repo + ":"@ + source + " => "@ + up + ":"@ + target,
        None => source + " => "@ + target,
    }
}

/// What shows the size of a body: `<empty>` for none, else the count of its
/// lines.
pub open spec fn body_line(body: Seq<char>) -> Seq<char> {
    if body.len() == 0 {
        "<empty>"@
    } else {
        let lines = split_text(body, '\n').len();
        decimal(lines) + if lines <= 1 {
            " line"@
        } else {
            " lines"@
        }
    }
}

impl MergeOption {
    /// The branches of the merge, for showing.
    pub fn display(&self) -> (r: String)
        ensures
            r@ == merge_line(
                self.repo@,
                match self.upstream {
                    Some(up) => Some(up@),
                    None => None,
                },
                self.source@,
                self.target@,
            ),
    {
        let mut out: Vec<char> = Vec::new();
        match &self.upstream {
            Some(up) => {
                append_chars(&mut out, &chars_of(self.repo.as_str()));
                append_chars(&mut out, &chars_of(":"));
                append_chars(&mut out, &chars_of(self.source.as_str()));
                append_chars(&mut out, &chars_of(" => "));
                append_chars(&mut out, &chars_of(up.as_str()));
                append_chars(&mut out, &chars_of(":"));
                append_chars(&mut out, &chars_of(self.target.as_str()));
                proof {
                    assert(out@ =~= self.repo@ + ":"@ + self.source@ + " => "@ + up@ + ":"@
                        + self.target@);
                }
            },
            None => {
                append_chars(&mut out, &chars_of(self.source.as_str()));
                append_chars(&mut out, &chars_of(" => "));
                append_chars(&mut out, &chars_of(self.target.as_str()));
                proof {
                    assert(out@ =~= self.source@ + " => "@ + self.target@);
                }
            },
        }
        string_of(&out)
    }

    /// The size of the body, for showing.
    pub fn body_display(&self) -> (r: String)
        ensures
            r@ == body_line(self.body@),
    {
        let body = chars_of(self.body.as_str());
        if body.len() == 0 {
            return "<empty>".to_owned();
        }
        let lines = split_chars_on(&body, '\n');
        proof {
            assert(lines@.map_values(|p: Vec<char>| p@).len() == lines.len());
        }
        let count = lines.len();
        let mut out = decimal_chars(count as u64);
        if count <= 1 {
            append_chars(&mut out, &chars_of(" line"));
        } else {
            append_chars(&mut out, &chars_of(" lines"));
        }
        string_of(&out)
    }
}

/// What a hosting service is asked for.
pub trait Provider {
    /// The repositories of a group, which may be an owner or an organisation.
    fn list(&self, group: &str) -> Result<Vec<String>, Error>;

    /// The default branch of a repository.
    fn get_default_branch(&self, repo: &str) -> Result<String, Error>;

    /// The repository that `repo` was forked from.
    fn get_upstream(&self, repo: &str) -> Result<String, Error>;

    /// The address of the open merge that `opts` describes, where there is
    /// one.
    fn get_merge(&self, opts: &MergeOption) -> Result<Option<String>, Error>;

    /// Opens the merge that `opts` describes and gives its address.
    fn create_merge(&self, opts: &MergeOption) -> Result<String, Error>;

    /// The address of a repository on the web, at a branch where one is
    /// given.
    fn get_repo_url(&self, name: &str, branch: Option<String>, remote: &Remote) -> Result<
        String,
        Error,
    >;
}

/// How the hosting service of a remote is reached: the remote must say so,
/// and a Gitlab must have an address.
pub fn create_provider(remote: &Remote) -> (r: Result<&API, Error>)
    ensures
        match remote.api {
            None => r matches Err(e) && e@ == ErrorView::Message(
                "remote "@ + remote.name@
                    + " does not enable api provider, please config it first"@,
            ),
            Some(api) => if api.provider == crate::config::Provider::Gitlab && api.url@.len()
                == 0 {
                r matches Err(e) && e@ == ErrorView::Message(
                    "for gitlab provider, you must specify api url, please check your config"@,
                )
            } else {
                r matches Ok(found) && *found == api
            },
        },
{
    match &remote.api {
        None => {
            let mut text = chars_of("remote ");
            append_chars(&mut text, &chars_of(remote.name.as_str()));
            append_chars(
                &mut text,
                &chars_of(" does not enable api provider, please config it first"),
            );
            Err(Error::Message(string_of(&text)))
        },
        Some(api) => {
            let gitlab = match api.provider {
                crate::config::Provider::Gitlab => true,
                crate::config::Provider::Github => false,
            };
            if gitlab && api.url.as_str().is_empty() {
                Err(
                    Error::Message(
                        "for gitlab provider, you must specify api url, please check your config".to_owned(),
                    ),
                )
            } else {
                Ok(api)
            }
        },
    }
}

/// The path of a repository on the web: the name joined to the domain, and
/// for a branch `tree` and the branch joined to that, all as paths.
pub open spec fn web_path(domain: Seq<char>, name: Seq<char>, branch: Option<Seq<char>>) -> Seq<
    char,
> {
    match branch {
        Some(b) => joined_path(joined_path(joined_path(domain, name), "tree"@), b),
        None => joined_path(domain, name),
    }
}

/// The address of a repository on the web: `https://` and the path made of
/// the domain, the name and, for a branch, `tree` and the branch.
pub fn get_repo_url(domain: &str, name: &str, branch: Option<String>) -> (r: String)
    ensures
        r@ == "https://"@ + web_path(
            domain@,
            name@,
            match branch {
                Some(b) => Some(b@),
                None => None,
            },
        ),
{
    let mut path = join_path(domain, name);
    if let Some(branch) = branch {
        path = join_path(path.as_str(), "tree");
        path = join_path(path.as_str(), branch.as_str());
    }
    let mut out = chars_of("https://");
    append_chars(&mut out, &chars_of(path.as_str()));
    string_of(&out)
}

} // verus!
