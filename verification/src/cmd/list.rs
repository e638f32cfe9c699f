//! Listing remotes, keywords, groups and repositories.

use vstd::prelude::*;
use crate::cmd::{texts, List};
use crate::config::{keyword_keys, position_of, remote_names, Config};
use crate::db::{Database, RepoView};
use crate::db::repo::views;
use crate::errors::{Error, ErrorView};
use crate::text::{
    chars_of, rows, same_chars, sort_texts, sorted_texts, string_of,
};
use crate::util::{name_group, split_chars};

verus! {

/// The texts among the first `upto` of `keys` that `shown` does not hold, in
/// their order.
pub open spec fn others(keys: Seq<Seq<char>>, shown: Seq<Seq<char>>, upto: int) -> Seq<
    Seq<char>,
>
    decreases upto,
{
    if upto <= 0 {
        Seq::empty()
    } else if shown.contains(keys[upto - 1]) {
        others(keys, shown, upto - 1)
    } else {
        others(keys, shown, upto - 1).push(keys[upto - 1])
    }
}

/// The groups of the first `upto` records, each once, in the order in which
/// they first occur, each followed by a slash.
pub open spec fn group_lines(records: Seq<RepoView>, upto: int) -> Seq<Seq<char>>
    decreases upto,
{
    if upto <= 0 {
        Seq::empty()
    } else {
        let line = name_group(records[upto - 1].name) + "/"@;
        if group_lines(records, upto - 1).contains(line) {
            group_lines(records, upto - 1)
        } else {
            group_lines(records, upto - 1).push(line)
        }
    }
}

/// The names of the records under `remote` among the first `upto`, in store
/// order.
pub open spec fn names_under(records: Seq<RepoView>, remote: Seq<char>, upto: int) -> Seq<
    Seq<char>,
>
    decreases upto,
{
    if upto <= 0 {
        Seq::empty()
    } else if records[upto - 1].remote == remote {
        names_under(records, remote, upto - 1).push(records[upto - 1].name)
    } else {
        names_under(records, remote, upto - 1)
    }
}

/// Whether `wanted` is one of `list`.
pub fn holds(list: &Vec<Vec<char>>, wanted: &Vec<char>) -> (r: bool)
    ensures
        r == rows(list@).contains(wanted@),
{
    let mut i: usize = 0;
    while i < list.len()
        invariant
            i <= list.len(),
            forall|j: int| 0 <= j < i ==> rows(list@)[j] != wanted@,
        decreases list.len() - i,
    {
        if same_chars(&list[i], wanted) {
            assert(rows(list@)[i as int] == wanted@);
            return true;
        }
        i += 1;
    }
    false
}

impl List {
    /// Whether the keywords are listed.
    pub fn shows_keywords(&self) -> (r: bool)
        ensures
            r == (self.args.len() == 0 && self.keyword),
    {
        self.args.len() == 0 && self.keyword
    }

    /// Whether the remotes are listed: without arguments, where they are
    /// asked for or nothing else is.
    pub fn shows_remotes(&self) -> (r: bool)
        ensures
            r == (self.args.len() == 0 && (self.remote || !self.keyword)),
    {
        self.args.len() == 0 && (self.remote || !self.keyword)
    }

    /// The keywords to show: those of the cache as they come, then the
    /// fixed ones that are not among them, in the order of dictionaries.
    pub fn keywords(cached: &Vec<String>, cfg: &Config) -> (r: Vec<String>)
        ensures
            r.len() >= cached.len(),
            texts(r@).take(cached.len() as int) == texts(cached@),
            sorted_texts(texts(r@).skip(cached.len() as int)),
            texts(r@).skip(cached.len() as int).to_multiset() == others(
                keyword_keys(cfg.keyword_map@),
                texts(cached@),
                cfg.keyword_map.len() as int,
            ).to_multiset(),
    {
        let mut shown: Vec<Vec<char>> = Vec::new();
        let mut out: Vec<String> = Vec::new();
        let mut i: usize = 0;
        proof {
            assert(texts(cached@).take(0) =~= Seq::<Seq<char>>::empty());
            assert(rows(shown@) =~= Seq::<Seq<char>>::empty());
            assert(texts(out@) =~= Seq::<Seq<char>>::empty());
        }
        while i < cached.len()
            invariant
                i <= cached.len(),
                rows(shown@) == texts(cached@).take(i as int),
                texts(out@) == texts(cached@).take(i as int),
            decreases cached.len() - i,
        {
            let ghost before_shown = rows(shown@);
            let ghost before_out = texts(out@);
            shown.push(chars_of(cached[i].as_str()));
            out.push(cached[i].clone());
            proof {
                let all = texts(cached@);
                assert(all.take(i + 1) =~= all.take(i as int).push(all[i as int]));
                assert(rows(shown@) =~= before_shown.push(all[i as int]));
                assert(texts(out@) =~= before_out.push(all[i as int]));
            }
            i += 1;
        }
        proof {
            assert(texts(cached@).take(cached.len() as int) =~= texts(cached@));
        }
        let ghost keys = keyword_keys(cfg.keyword_map@);
        let mut rest: Vec<Vec<char>> = Vec::new();
        let mut k: usize = 0;
        proof {
            assert(rows(rest@) =~= others(keys, texts(cached@), 0));
        }
        while k < cfg.keyword_map.len()
            invariant
                k <= cfg.keyword_map.len(),
                keys == keyword_keys(cfg.keyword_map@),
                rows(shown@) == texts(cached@),
                rows(rest@) == others(keys, texts(cached@), k as int),
            decreases cfg.keyword_map.len() - k,
        {
            let key = chars_of(cfg.keyword_map[k].0.as_str());
            let ghost before = rows(rest@);
            if !holds(&shown, &key) {
                rest.push(key);
                proof {
                    assert(rows(rest@) =~= before.push(keys[k as int]));
                }
            }
            k += 1;
        }
        let sorted = sort_texts(&rest);
        let ghost head = texts(out@);
        let mut j: usize = 0;
        proof {
            assert(rows(sorted@).take(0) =~= Seq::<Seq<char>>::empty());
            assert(head + rows(sorted@).take(0) =~= head);
        }
        while j < sorted.len()
            invariant
                j <= sorted.len(),
                head == texts(cached@),
                texts(out@) == head + rows(sorted@).take(j as int),
            decreases sorted.len() - j,
        {
            let ghost before = texts(out@);
            out.push(string_of(&sorted[j]));
            proof {
                let all = rows(sorted@);
                assert(texts(out@) =~= before.push(all[j as int]));
                assert(head + all.take(j + 1) =~= (head + all.take(j as int)).push(all[j as int]));
            }
            j += 1;
        }
        proof {
            let all = rows(sorted@);
            assert(all.take(sorted.len() as int) =~= all);
            assert((head + all).take(cached.len() as int) =~= head);
            assert((head + all).skip(cached.len() as int) =~= all);
        }
        out
    }

    /// The names of the remotes, in the order of the configuration.
    pub fn remotes(cfg: &Config) -> (r: Vec<String>)
        ensures
            texts(r@) == remote_names(cfg.remotes@),
    {
        let mut out: Vec<String> = Vec::new();
        let mut i: usize = 0;
        proof {
            assert(texts(out@) =~= remote_names(cfg.remotes@).take(0));
        }
        while i < cfg.remotes.len()
            invariant
                i <= cfg.remotes.len(),
                texts(out@) == remote_names(cfg.remotes@).take(i as int),
            decreases cfg.remotes.len() - i,
        {
            let ghost before = texts(out@);
            out.push(cfg.remotes[i].name.clone());
            proof {
                let all = remote_names(cfg.remotes@);
                assert(texts(out@) =~= before.push(all[i as int]));
                assert(all.take(i + 1) =~= all.take(i as int).push(all[i as int]));
            }
            i += 1;
        }
        proof {
            assert(remote_names(cfg.remotes@).take(cfg.remotes.len() as int) =~= remote_names(
                cfg.remotes@,
            ));
        }
        out
    }

    /// The groups of the records of the store, each once and followed by a
    /// slash.
    pub fn groups(db: &Database) -> (r: Vec<String>)
        ensures
            texts(r@) == group_lines(db.records(), db.records().len() as int),
    {
        let repos = db.repos();
        let ghost records = views(repos@);
        let mut seen: Vec<Vec<char>> = Vec::new();
        let mut out: Vec<String> = Vec::new();
        let mut i: usize = 0;
        proof {
            assert(texts(out@) =~= group_lines(records, 0));
            assert(rows(seen@) =~= group_lines(records, 0));
        }
        while i < repos.len()
            invariant
                i <= repos.len(),
                records == views(repos@),
                texts(out@) == group_lines(records, i as int),
                rows(seen@) == group_lines(records, i as int),
            decreases repos.len() - i,
        {
            let (group, _) = split_chars(&chars_of(repos[i].name.as_str()));
            let mut line = group;
            line.push('/');
            proof {
                assert(line@ =~= name_group(records[i as int].name) + "/"@) by {
                    reveal_strlit("/");
                    assert("/"@ =~= seq!['/']);
                }
            }
            let ghost before_out = texts(out@);
            let ghost before_seen = rows(seen@);
            if !holds(&seen, &line) {
                out.push(string_of(&line));
                seen.push(line);
                proof {
                    let text = name_group(records[i as int].name) + "/"@;
                    assert(texts(out@) =~= before_out.push(text));
                    assert(rows(seen@) =~= before_seen.push(text));
                }
            }
            i += 1;
        }
        out
    }

    /// The names of the records under `remote`, in store order.
    pub fn names(db: &Database, remote: &str) -> (r: Vec<String>)
        ensures
            texts(r@) == names_under(db.records(), remote@, db.records().len() as int),
    {
        let repos = db.repos();
        let ghost records = views(repos@);
        let wanted = chars_of(remote);
        let mut out: Vec<String> = Vec::new();
        let mut i: usize = 0;
        proof {
            assert(texts(out@) =~= names_under(records, remote@, 0));
        }
        while i < repos.len()
            invariant
                i <= repos.len(),
                records == views(repos@),
                wanted@ == remote@,
                texts(out@) == names_under(records, remote@, i as int),
            decreases repos.len() - i,
        {
            let ghost before = texts(out@);
            if same_chars(&chars_of(repos[i].remote.as_str()), &wanted) {
                out.push(repos[i].name.clone());
                proof {
                    assert(texts(out@) =~= before.push(records[i as int].name));
                }
            }
            i += 1;
        }
        out
    }

    /// What is listed of the store: nothing where no remote is named; for a
    /// remote that is named, which must be configured, the groups of the
    /// store where they are asked for, and else the names of the records
    /// under the remote.
    pub fn run(&self, cfg: &Config, db: &Database) -> (r: Result<Vec<String>, Error>)
        ensures
            self.args.len() == 0 ==> (r matches Ok(lines) && lines.len() == 0),
            self.args.len() > 0 ==> match r {
                Ok(lines) => position_of(remote_names(cfg.remotes@), self.args[0]@) is Some
                    && texts(lines@) == if self.group {
                    group_lines(db.records(), db.records().len() as int)
                } else {
                    names_under(db.records(), self.args[0]@, db.records().len() as int)
                },
                Err(e) => position_of(remote_names(cfg.remotes@), self.args[0]@) is None && e@
                    == ErrorView::UnknownRemote(self.args[0]@),
            },
    {
        if self.args.len() == 0 {
            return Ok(Vec::new());
        }
        let remote = self.args[0].as_str();
        if cfg.remote_position(remote).is_none() {
            return Err(Error::UnknownRemote(self.args[0].clone()));
        }
        if self.group {
            Ok(List::groups(db))
        } else {
            Ok(List::names(db, remote))
        }
    }
}

} // verus!
