//! Attaching a directory to a repository.

use vstd::prelude::*;
use crate::cmd::Attach;
use crate::config::{position_of, remote_names, Config};
use crate::db::{first_match, has_key, has_path, Database, RepoView};
use crate::db::repo::{clone_address, clones_over_ssh, Repo};
use crate::errors::{Error, ErrorView};
use crate::text::{append_chars, chars_of, string_of};
use crate::util::name_group;

verus! {

/// What is left to do after a directory was attached.
#[derive(Debug, PartialEq, Eq)]
pub struct Attached {
    /// The position of the new record.
    pub repo: usize,
    /// The address to set as the origin of the directory, if any.
    pub origin: Option<String>,
    /// The name and the email to set as the user of the directory, if any.
    pub user: Option<(String, String)>,
}

/// The message for a repository that the store holds already.
pub open spec fn already_exists(remote: Seq<char>, name: Seq<char>) -> Seq<char> {
    "repository "@ + remote + ":"@ + name + " is already exists"@
}

/// The message for a path that another record is bound to.
pub open spec fn already_bound(path: Seq<char>) -> Seq<char> {
    "path "@ + path + " has already bound to anthor repository, please consider detach first"@
}

impl Attach {
    /// Attaches `path` to the repository of the arguments: the remote must
    /// be configured, the repository must be new to the store and the path
    /// must be bound to no record. The record is added with the path as its
    /// own, and what the switches ask to set in the directory is named.
    pub fn run(&self, db: &mut Database, cfg: &Config, path: &str) -> (r: Result<Attached, Error>)
        ensures
            final(db).file() == old(db).file(),
            match r {
                Ok(done) => {
                    &&& position_of(remote_names(cfg.remotes@), self.remote@) matches Some(at)
                    &&& first_match(old(db).records(), has_key(self.remote@, self.name@)) is None
                    &&& first_match(old(db).records(), has_path(path@)) is None
                    &&& done.repo == old(db).records().len()
                    &&& final(db).records() == old(db).records().push(
                        RepoView {
                            remote: self.remote@,
                            name: self.name@,
                            path: path@,
                            last_accessed: 0,
                            accessed: 0,
                        },
                    )
                    &&& final(db).is_dirty()
                    &&& match done.origin {
                        Some(url) => self.remote_config && (cfg.remotes[at].clone matches Some(how)
                            && url@ == clone_address(
                            clones_over_ssh(how.use_ssh, how.ssh_groups@, name_group(self.name@)),
                            how.domain@,
                            self.name@,
                        )),
                        None => !self.remote_config || cfg.remotes[at].clone is None,
                    }
                    &&& match done.user {
                        Some(set) => self.user_config && (cfg.remotes[at].user matches Some(who)
                            && set.0@ == who.name@ && set.1@ == who.email@),
                        None => !self.user_config || cfg.remotes[at].user is None,
                    }
                },
                Err(e) => {
                    &&& final(db).records() == old(db).records()
                    &&& final(db).is_dirty() == old(db).is_dirty()
                    &&& if position_of(remote_names(cfg.remotes@), self.remote@) is None {
                        e@ == ErrorView::UnknownRemote(self.remote@)
                    } else if first_match(old(db).records(), has_key(self.remote@, self.name@))
                        is Some {
                        e@ == ErrorView::Message(already_exists(self.remote@, self.name@))
                    } else {
                        first_match(old(db).records(), has_path(path@)) is Some && e@
                            == ErrorView::Message(already_bound(path@))
                    }
                },
            },
    {
        let at = match cfg.remote_position(self.remote.as_str()) {
            Some(at) => at,
            None => {
                return Err(Error::UnknownRemote(self.remote.clone()));
            },
        };
        let remote = &cfg.remotes[at];
        if db.get(self.remote.as_str(), self.name.as_str()).is_some() {
            let mut text = chars_of("repository ");
            append_chars(&mut text, &chars_of(self.remote.as_str()));
            append_chars(&mut text, &chars_of(":"));
            append_chars(&mut text, &chars_of(self.name.as_str()));
            append_chars(&mut text, &chars_of(" is already exists"));
            return Err(Error::Message(string_of(&text)));
        }
        if db.get_by_path(path).is_some() {
            let mut text = chars_of("path ");
            append_chars(&mut text, &chars_of(path));
            append_chars(
                &mut text,
                &chars_of(" has already bound to anthor repository, please consider detach first"),
            );
            return Err(Error::Message(string_of(&text)));
        }
        let repo = db.add(self.remote.as_str(), self.name.as_str(), path);
        let mut origin: Option<String> = None;
        if self.remote_config {
            if let Some(how) = &remote.clone {
                let attached = Repo {
                    remote: self.remote.clone(),
                    name: self.name.clone(),
                    path: path.to_owned(),
                    last_accessed: 0,
                    accessed: 0,
                };
                origin = Some(attached.clone_url(how));
            }
        }
        let mut user: Option<(String, String)> = None;
        if self.user_config {
            if let Some(who) = &remote.user {
                user = Some((who.name.clone(), who.email.clone()));
            }
        }
        Ok(Attached { repo, origin, user })
    }
}

} // verus!
