//! Resolving the arguments of the home command to a record of the store.
//!
//! The rules are tried in order and the first that succeeds decides: the
//! record of exactly this remote and name; for a name that ends in the
//! separator, a choice among the records under that prefix; the first record
//! in store order whose base name holds the keyword; for a keyword with a
//! group, the first record of that group whose base name holds the base.

use vstd::prelude::*;
use crate::cmd::{texts, Home};
use crate::config::{keyword_keys, position_of, remote_names, Config};
use crate::db::{first_match, has_key, matches_keyword, Database, RepoView};
use crate::db::repo::{views, Repo};
use crate::errors::{Error, ErrorView};
use crate::text::{
    chars_of, ends_with, same_chars, slice_of, starts_with, starts_with_chars, string_of,
    trim_char, trim_chars, trim_end_char, trim_end_chars,
};
use crate::util::separator;

verus! {

/// What a query comes to.
#[derive(Debug, PartialEq, Eq)]
pub enum Resolved {
    /// The record at `repo`, which lies under the remote at `remote` of the
    /// configuration. `remember` asks to keep the query as a keyword.
    Found { remote: usize, repo: usize, remember: bool },
    /// One of several records, for the user to choose: `keys[i]` names the
    /// record at `items[i]`.
    Choose { remote: usize, items: Vec<usize>, keys: Vec<String> },
    /// One of the repositories that the hosting service lists under `group`,
    /// for the user to choose.
    Search { remote: usize, group: String },
    /// No record: one of this name may be created under the remote.
    Create { remote: usize, name: String },
}

/// The mathematical value of what a query comes to, or of why it fails.
pub enum Answer {
    Found { remote: int, repo: int, remember: bool },
    Choose { remote: int, items: Seq<int>, keys: Seq<Seq<char>> },
    Search { remote: int, group: Seq<char> },
    Create { remote: int, name: Seq<char> },
    Failed(ErrorView),
}

/// The positions held in a list, as `int`s.
pub open spec fn positions(items: Seq<usize>) -> Seq<int> {
    items.map_values(|i: usize| i as int)
}

/// The value of a result of the resolver.
pub open spec fn answer_of(r: Result<Resolved, Error>) -> Answer {
    match r {
        Ok(Resolved::Found { remote, repo, remember }) => Answer::Found {
            remote: remote as int,
            repo: repo as int,
            remember,
        },
        Ok(Resolved::Choose { remote, items, keys }) => Answer::Choose {
            remote: remote as int,
            items: positions(items@),
            keys: texts(keys@),
        },
        Ok(Resolved::Search { remote, group }) => Answer::Search {
            remote: remote as int,
            group: group@,
        },
        Ok(Resolved::Create { remote, name }) => Answer::Create { remote: remote as int, name: name@ },
        Err(e) => Answer::Failed(e@),
    }
}

/// The position of the record that was used last among the first `n`; of
/// several that were used at the same time, the first.
pub open spec fn latest_upto(records: Seq<RepoView>, n: int) -> int
    decreases n,
{
    if n <= 1 {
        0
    } else {
        let best = latest_upto(records, n - 1);
        if records[n - 1].last_accessed > records[best].last_accessed {
            n - 1
        } else {
            best
        }
    }
}

/// The position of the record that was used last; of several that were used
/// at the same time, the first.
pub open spec fn latest(records: Seq<RepoView>) -> int {
    latest_upto(records, records.len() as int)
}

/// No record among the first `n` was used after the one at `latest_upto`,
/// and every record before it was used earlier.
pub proof fn lemma_latest_upto(records: Seq<RepoView>, n: int)
    requires
        1 <= n <= records.len(),
    ensures
        0 <= latest_upto(records, n) < n,
        forall|j: int|
            0 <= j < n ==> (#[trigger] records[j]).last_accessed <= records[latest_upto(
                records,
                n,
            )].last_accessed,
        forall|j: int|
            0 <= j < latest_upto(records, n) ==> (#[trigger] records[j]).last_accessed
                < records[latest_upto(records, n)].last_accessed,
    decreases n,
{
    if n > 1 {
        lemma_latest_upto(records, n - 1);
    }
}

/// The name of a record under a prefix: what follows the prefix, without
/// separators at either end.
pub open spec fn key_under(name: Seq<char>, prefix: Seq<char>) -> Seq<char> {
    trim_char(name.skip(prefix.len() as int), separator())
}

/// Whether a record is listed when `prefix` is browsed under `remote`: it
/// lies under the remote, its name begins with the prefix, and something is
/// left of the name after the prefix.
pub open spec fn is_candidate(r: RepoView, remote: Seq<char>, prefix: Seq<char>) -> bool {
    &&& r.remote == remote
    &&& starts_with(r.name, prefix)
    &&& key_under(r.name, prefix).len() > 0
}

/// The positions of the candidates among the first `n` records, in store
/// order.
pub open spec fn candidates(
    records: Seq<RepoView>,
    remote: Seq<char>,
    prefix: Seq<char>,
    n: int,
) -> Seq<int>
    decreases n,
{
    if n <= 0 {
        Seq::empty()
    } else if is_candidate(records[n - 1], remote, prefix) {
        candidates(records, remote, prefix, n - 1).push(n - 1)
    } else {
        candidates(records, remote, prefix, n - 1)
    }
}

/// The keys of the candidates among the first `n` records, in store order.
pub open spec fn candidate_keys(
    records: Seq<RepoView>,
    remote: Seq<char>,
    prefix: Seq<char>,
    n: int,
) -> Seq<Seq<char>>
    decreases n,
{
    if n <= 0 {
        Seq::empty()
    } else if is_candidate(records[n - 1], remote, prefix) {
        candidate_keys(records, remote, prefix, n - 1).push(key_under(records[n - 1].name, prefix))
    } else {
        candidate_keys(records, remote, prefix, n - 1)
    }
}

/// The candidates are exactly the records that are listed, in ascending
/// positions, and each key is the key of its candidate.
pub proof fn lemma_candidates(records: Seq<RepoView>, remote: Seq<char>, prefix: Seq<char>, n: int)
    requires
        0 <= n <= records.len(),
    ensures
        candidates(records, remote, prefix, n).len() == candidate_keys(
            records,
            remote,
            prefix,
            n,
        ).len(),
        forall|k: int|
            0 <= k < candidates(records, remote, prefix, n).len() ==> {
                let i = #[trigger] candidates(records, remote, prefix, n)[k];
                &&& 0 <= i < n
                &&& is_candidate(records[i], remote, prefix)
                &&& candidate_keys(records, remote, prefix, n)[k] == key_under(
                    records[i].name,
                    prefix,
                )
            },
        forall|a: int, b: int|
            0 <= a < b < candidates(records, remote, prefix, n).len() ==> candidates(
                records,
                remote,
                prefix,
                n,
            )[a] < candidates(records, remote, prefix, n)[b],
        forall|i: int|
            0 <= i < n && is_candidate(#[trigger] records[i], remote, prefix) ==> candidates(
                records,
                remote,
                prefix,
                n,
            ).contains(i),
    decreases n,
{
    if n > 0 {
        lemma_candidates(records, remote, prefix, n - 1);
        let before = candidates(records, remote, prefix, n - 1);
        let now = candidates(records, remote, prefix, n);
        assert forall|i: int|
            0 <= i < n && is_candidate(#[trigger] records[i], remote, prefix) implies now.contains(
            i,
        ) by {
            if i < n - 1 {
                let k = choose|k: int| 0 <= k < before.len() && before[k] == i;
                assert(now[k] == i);
            } else {
                assert(now[now.len() - 1] == i);
            }
        }
    }
}

/// What browsing a prefix under a remote comes to: a choice among the
/// candidates, or a failure where there is none.
pub open spec fn browse(
    records: Seq<RepoView>,
    remote: int,
    remote_name: Seq<char>,
    prefix: Seq<char>,
) -> Answer {
    let items = candidates(records, remote_name, prefix, records.len() as int);
    if items.len() == 0 {
        Answer::Failed(ErrorView::NoCandidates(prefix))
    } else {
        Answer::Choose {
            remote,
            items,
            keys: candidate_keys(records, remote_name, prefix, records.len() as int),
        }
    }
}

/// The record found, with the remote it lies under; a failure where that
/// remote is not configured.
pub open spec fn found(
    records: Seq<RepoView>,
    remotes: Seq<Seq<char>>,
    repo: int,
    remember: bool,
) -> Answer {
    match position_of(remotes, records[repo].remote) {
        Some(remote) => Answer::Found { remote, repo, remember },
        None => Answer::Failed(ErrorView::UnknownRemote(records[repo].remote)),
    }
}

/// What the arguments come to, for the records of the store, the names of
/// the configured remotes and the fixed keywords.
///
/// Without arguments: the record that was used last. With one argument that
/// names a remote: a choice among all its records. With one argument that
/// names none: the first record that matches it as a keyword, in any remote;
/// the keyword is to be remembered unless it is a fixed one. With a remote
/// and a name: a choice under the name where it ends in the separator (from
/// the hosting service where `search` is set); else the record of that name;
/// else, unless `create` is set, the first record of the remote that matches
/// the name as a keyword; else the offer to create the record.
pub open spec fn resolve(
    args: Seq<Seq<char>>,
    create: bool,
    search: bool,
    records: Seq<RepoView>,
    remotes: Seq<Seq<char>>,
    keywords: Seq<Seq<char>>,
) -> Answer {
    if args.len() == 0 {
        if records.len() == 0 {
            Answer::Failed(ErrorView::EmptyStore)
        } else {
            found(records, remotes, latest(records), false)
        }
    } else if args.len() == 1 {
        match position_of(remotes, args[0]) {
            Some(remote) => browse(records, remote, args[0], Seq::empty()),
            None => match first_match(records, matches_keyword(Seq::empty(), args[0])) {
                Some(repo) => found(records, remotes, repo, !keywords.contains(args[0])),
                None => Answer::Failed(ErrorView::ResolutionFailed(args[0])),
            },
        }
    } else {
        match position_of(remotes, args[0]) {
            None => Answer::Failed(ErrorView::UnknownRemote(args[0])),
            Some(remote) => if ends_with(args[1], seq![separator()]) {
                let prefix = trim_end_char(args[1], separator());
                if search {
                    Answer::Search { remote, group: prefix }
                } else {
                    browse(records, remote, args[0], prefix)
                }
            } else {
                match first_match(records, has_key(args[0], args[1])) {
                    Some(repo) => Answer::Found { remote, repo, remember: false },
                    None => match first_match(records, matches_keyword(args[0], args[1])) {
                        Some(repo) => if create {
                            Answer::Create { remote, name: args[1] }
                        } else {
                            Answer::Found { remote, repo, remember: false }
                        },
                        None => Answer::Create { remote, name: args[1] },
                    },
                }
            },
        }
    }
}

/// Whether the positions that an answer names exist: the remote among
/// `remotes` remotes, each record among `records` records; a choice has as
/// many keys as records, and at least one.
pub open spec fn in_range(answer: Answer, records: nat, remotes: nat) -> bool {
    match answer {
        Answer::Found { remote, repo, remember } => 0 <= remote < remotes && 0 <= repo < records,
        Answer::Choose { remote, items, keys } => {
            &&& 0 <= remote < remotes
            &&& items.len() == keys.len()
            &&& items.len() > 0
            &&& forall|k: int| 0 <= k < items.len() ==> 0 <= #[trigger] items[k] < records
        },
        Answer::Search { remote, group } => 0 <= remote < remotes,
        Answer::Create { remote, name } => 0 <= remote < remotes,
        Answer::Failed(e) => true,
    }
}

/// What the arguments come to names only remotes of the configuration and
/// records of the store.
pub proof fn lemma_resolve_in_range(
    args: Seq<Seq<char>>,
    create: bool,
    search: bool,
    records: Seq<RepoView>,
    remotes: Seq<Seq<char>>,
    keywords: Seq<Seq<char>>,
)
    ensures
        in_range(
            resolve(args, create, search, records, remotes, keywords),
            records.len(),
            remotes.len(),
        ),
{
    if args.len() == 0 {
        if records.len() > 0 {
            lemma_latest_upto(records, records.len() as int);
            crate::config::lemma_position_from(remotes, records[latest(records)].remote, 0);
        }
    } else {
        crate::config::lemma_position_from(remotes, args[0], 0);
        lemma_candidates(records, args[0], Seq::empty(), records.len() as int);
        crate::db::lemma_first_from(records, matches_keyword(Seq::empty(), args[0]), 0);
        if let Some(repo) = first_match(records, matches_keyword(Seq::empty(), args[0])) {
            crate::config::lemma_position_from(remotes, records[repo].remote, 0);
        }
        if args.len() > 1 {
            lemma_candidates(
                records,
                args[0],
                trim_end_char(args[1], separator()),
                records.len() as int,
            );
            crate::db::lemma_first_from(records, has_key(args[0], args[1]), 0);
            crate::db::lemma_first_from(records, matches_keyword(args[0], args[1]), 0);
        }
    }
}

impl Home {
    /// The position of the record that was used last; of several that were
    /// used at the same time, the first.
    pub fn latest_repo(repos: &Vec<Repo>) -> (r: usize)
        requires
            repos.len() > 0,
        ensures
            r == latest(views(repos@)),
            r < repos.len(),
    {
        let ghost records = views(repos@);
        let mut best: usize = 0;
        let mut i: usize = 1;
        while i < repos.len()
            invariant
                1 <= i <= repos.len(),
                records == views(repos@),
                best == latest_upto(records, i as int),
                best < i,
            decreases repos.len() - i,
        {
            if repos[i].last_accessed > repos[best].last_accessed {
                best = i;
            }
            i += 1;
        }
        best
    }

    /// The candidates when `prefix` is browsed under the remote named
    /// `remote_name`, with their keys.
    pub fn search_repo(&self, db: &Database, remote: usize, remote_name: &str, prefix: &str) -> (r:
        Result<Resolved, Error>)
        ensures
            answer_of(r) == browse(db.records(), remote as int, remote_name@, prefix@),
    {
        let repos = db.repos();
        let ghost records = views(repos@);
        let remote_chars = chars_of(remote_name);
        let prefix_chars = chars_of(prefix);
        let mut items: Vec<usize> = Vec::new();
        let mut keys: Vec<String> = Vec::new();
        let mut i: usize = 0;
        proof {
            assert(positions(items@) =~= candidates(records, remote_name@, prefix@, 0));
            assert(texts(keys@) =~= candidate_keys(records, remote_name@, prefix@, 0));
        }
        while i < repos.len()
            invariant
                i <= repos.len(),
                records == views(repos@),
                remote_chars@ == remote_name@,
                prefix_chars@ == prefix@,
                positions(items@) == candidates(records, remote_name@, prefix@, i as int),
                texts(keys@) == candidate_keys(records, remote_name@, prefix@, i as int),
            decreases repos.len() - i,
        {
            let repo = &repos[i];
            let ghost before_items = items@;
            let ghost before_keys = keys@;
            let mut listed = false;
            if same_chars(&chars_of(repo.remote.as_str()), &remote_chars) {
                let name = chars_of(repo.name.as_str());
                if starts_with_chars(&name, &prefix_chars) {
                    let rest = slice_of(&name, prefix_chars.len(), name.len());
                    proof {
                        assert(rest@ =~= name@.skip(prefix@.len() as int));
                    }
                    let key = trim_chars(&rest, '/');
                    if key.len() > 0 {
                        items.push(i);
                        keys.push(string_of(&key));
                        listed = true;
                    }
                }
            }
            proof {
                assert(listed == is_candidate(records[i as int], remote_name@, prefix@));
                if listed {
                    assert(positions(items@) =~= positions(before_items).push(i as int));
                    assert(texts(keys@) =~= texts(before_keys).push(
                        key_under(records[i as int].name, prefix@),
                    ));
                }
            }
            i += 1;
        }
        if items.len() == 0 {
            return Err(Error::NoCandidates(prefix.to_owned()));
        }
        Ok(Resolved::Choose { remote, items, keys })
    }

    /// The record found at `repo`, with the remote it lies under.
    fn found_at(db: &Database, cfg: &Config, repo: usize, remember: bool) -> (r: Result<
        Resolved,
        Error,
    >)
        requires
            repo < db.records().len(),
        ensures
            answer_of(r) == found(
                db.records(),
                remote_names(cfg.remotes@),
                repo as int,
                remember,
            ),
    {
        let name = db.repos()[repo].remote.as_str();
        match cfg.remote_position(name) {
            Some(remote) => Ok(Resolved::Found { remote, repo, remember }),
            None => Err(Error::UnknownRemote(name.to_owned())),
        }
    }

    /// What the arguments come to, for the records of `db` and the remotes
    /// and fixed keywords of `cfg`. The store is not changed.
    pub fn query(&self, db: &Database, cfg: &Config) -> (r: Result<Resolved, Error>)
        ensures
            answer_of(r) == resolve(
                texts(self.args@),
                self.create,
                self.search,
                db.records(),
                remote_names(cfg.remotes@),
                keyword_keys(cfg.keyword_map@),
            ),
            in_range(answer_of(r), db.records().len(), cfg.remotes@.len()),
    {
        let ghost args = texts(self.args@);
        let ghost records = db.records();
        proof {
            lemma_resolve_in_range(
                args,
                self.create,
                self.search,
                records,
                remote_names(cfg.remotes@),
                keyword_keys(cfg.keyword_map@),
            );
        }
        if self.args.len() == 0 {
            if db.len() == 0 {
                return Err(Error::EmptyStore);
            }
            let repo = Home::latest_repo(db.repos());
            return Home::found_at(db, cfg, repo, false);
        }
        let first = self.args[0].as_str();
        assert(args[0] == first@);
        if self.args.len() == 1 {
            return match cfg.remote_position(first) {
                Some(remote) => {
                    let all = String::new();
                    self.search_repo(db, remote, first, all.as_str())
                },
                None => {
                    let none = String::new();
                    match db.match_keyword(none.as_str(), first) {
                        Ok(repo) => {
                            let remember = !cfg.has_keyword(first);
                            Home::found_at(db, cfg, repo, remember)
                        },
                        Err(e) => Err(e),
                    }
                },
            };
        }
        let remote = match cfg.remote_position(first) {
            Some(remote) => remote,
            None => {
                return Err(Error::UnknownRemote(first.to_owned()));
            },
        };
        let name = self.args[1].as_str();
        assert(args[1] == name@);
        let name_chars = chars_of(name);
        if name_chars.len() > 0 && name_chars[name_chars.len() - 1] == '/' {
            proof {
                assert(name@.subrange(name@.len() - 1, name@.len() as int) =~= seq![separator()]);
            }
            let prefix = string_of(&trim_end_chars(&name_chars, '/'));
            if self.search {
                return Ok(Resolved::Search { remote, group: prefix });
            }
            return self.search_repo(db, remote, first, prefix.as_str());
        }
        proof {
            if ends_with(name@, seq![separator()]) {
                assert(name@.subrange(name@.len() - 1, name@.len() as int)[0] == separator());
            }
        }
        if let Some(repo) = db.get(first, name) {
            return Ok(Resolved::Found { remote, repo, remember: false });
        }
        if !self.create {
            if let Ok(repo) = db.match_keyword(first, name) {
                return Ok(Resolved::Found { remote, repo, remember: false });
            }
        }
        Ok(Resolved::Create { remote, name: name.to_owned() })
    }

    /// The record that the user chose: the one that `items` holds at
    /// `picked`.
    pub fn pick(items: &Vec<usize>, picked: usize) -> (r: Option<usize>)
        ensures
            r == if picked < items.len() {
                Some(items[picked as int])
            } else {
                None
            },
    {
        if picked < items.len() {
            Some(items[picked])
        } else {
            None
        }
    }

    /// The key under which a repository that the hosting service listed is
    /// shown: what follows `group` in its name, without separators at either
    /// end, or the whole name where it does not begin with `group`.
    pub fn remote_key(name: &str, group: &str) -> (r: String)
        ensures
            r@ == if starts_with(name@, group@) {
                key_under(name@, group@)
            } else {
                name@
            },
    {
        let name_chars = chars_of(name);
        let group_chars = chars_of(group);
        if starts_with_chars(&name_chars, &group_chars) {
            let rest = slice_of(&name_chars, group_chars.len(), name_chars.len());
            proof {
                assert(rest@ =~= name@.skip(group@.len() as int));
            }
            string_of(&trim_chars(&rest, '/'))
        } else {
            string_of(&name_chars)
        }
    }

    /// What choosing the repository `name` of the hosting service comes to:
    /// its record where the store holds one, else the offer to create it.
    pub fn search_repo_remote(db: &Database, remote: usize, remote_name: &str, name: &str) -> (r:
        Resolved)
        ensures
            answer_of(Ok(r)) == match first_match(db.records(), has_key(remote_name@, name@)) {
                Some(repo) => Answer::Found { remote: remote as int, repo, remember: false },
                None => Answer::Create { remote: remote as int, name: name@ },
            },
    {
        match db.get(remote_name, name) {
            Some(repo) => Resolved::Found { remote, repo, remember: false },
            None => Resolved::Create { remote, name: name.to_owned() },
        }
    }

    /// Adds the record that the user agreed to create, never used and
    /// without a path of its own, and gives its position.
    pub fn create_repo(db: &mut Database, remote: &str, name: &str) -> (r: usize)
        ensures
            r == old(db).records().len(),
            final(db).records() == old(db).records().push(
                RepoView {
                    remote: remote@,
                    name: name@,
                    path: Seq::empty(),
                    last_accessed: 0,
                    accessed: 0,
                },
            ),
            final(db).is_dirty(),
            final(db).file() == old(db).file(),
    {
        let none = String::new();
        db.add(remote, name, none.as_str())
    }
}

} // verus!
