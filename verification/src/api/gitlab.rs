//! What is asked of Gitlab.

use vstd::prelude::*;
use crate::api::MergeOption;
use crate::config::Remote;
use crate::errors::{Error, ErrorView};

verus! {

/// How a Gitlab is reached: its address and the token to show.
#[derive(Debug, PartialEq, Eq)]
pub struct Gitlab {
    pub url: String,
    pub token: String,
}

/// The message for a merge that goes to an upstream.
pub const NO_UPSTREAM_SUPPORT: &'static str =
    "sorry, gitlab now does not support upstream features";

impl Gitlab {
    /// The Gitlab at `url`; an address is asked for.
    pub fn new(url: &str, token: &str) -> (r: Result<Gitlab, Error>)
        ensures
            match r {
                Ok(gitlab) => url@.len() > 0 && gitlab.url@ == url@ && gitlab.token@ == token@,
                Err(e) => url@.len() == 0 && e@ == ErrorView::Message(
                    "for gitlab provider, you must specify api url, please check your config"@,
                ),
            },
    {
        if url.is_empty() {
            return Err(
                Error::Message(
                    "for gitlab provider, you must specify api url, please check your config".to_owned(),
                ),
            );
        }
        Ok(Gitlab { url: url.to_owned(), token: token.to_owned() })
    }

    /// Whether a merge can be asked of Gitlab: it must not go to an upstream.
    pub fn get_merge(opts: &MergeOption) -> (r: Result<(), Error>)
        ensures
            opts.upstream is None ==> r is Ok,
            opts.upstream is Some ==> (r matches Err(e) && e@ == ErrorView::Message(
                NO_UPSTREAM_SUPPORT@,
            )),
    {
        match &opts.upstream {
            Some(_) => Err(Error::Message(NO_UPSTREAM_SUPPORT.to_owned())),
            None => Ok(()),
        }
    }

    /// The default branch of a project, which Gitlab is expected to name.
    pub fn get_default_branch(branch: Option<String>) -> (r: Result<String, Error>)
        ensures
            match branch {
                Some(b) => r == Ok::<String, Error>(b),
                None => (r matches Err(e) && e@ == ErrorView::Message(
                    "gitlab did not return default branch"@,
                )),
            },
    {
        match branch {
            Some(b) => Ok(b),
            None => Err(Error::Message("gitlab did not return default branch".to_owned())),
        }
    }

    /// The project that one was forked from, where Gitlab names one.
    pub fn get_upstream(forked_from: Option<String>) -> (r: Result<String, Error>)
        ensures
            match forked_from {
                Some(up) => r == Ok::<String, Error>(up),
                None => (r matches Err(e) && e@ == ErrorView::Message(
                    crate::errors::REPO_NO_UPSTREAM@,
                )),
            },
    {
        match forked_from {
            Some(up) => Ok(up),
            None => Err(Error::Message(crate::errors::REPO_NO_UPSTREAM.to_owned())),
        }
    }

    /// The address of a repository on the web, for which the remote must
    /// say how it is cloned.
    pub fn get_repo_url(name: &str, branch: Option<String>, remote: &Remote) -> (r: Result<
        String,
        Error,
    >)
        ensures
            match r {
                Ok(url) => (remote.clone matches Some(how) && url@ == "https://"@
                    + crate::api::web_path(
                    how.domain@,
                    name@,
                    match branch {
                        Some(b) => Some(b@),
                        None => None,
                    },
                )),
                Err(e) => remote.clone is None && e@ == ErrorView::Message(
                    "you must provide clone config to get gitlab repo url, please check your config"@,
                ),
            },
    {
        match &remote.clone {
            None => Err(
                Error::Message(
                    "you must provide clone config to get gitlab repo url, please check your config".to_owned(),
                ),
            ),
            Some(clone) => Ok(crate::api::get_repo_url(clone.domain.as_str(), name, branch)),
        }
    }
}

} // verus!
