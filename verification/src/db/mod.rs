//! The record store and the keyword cache.

pub mod binary64;
pub mod codec;
pub mod keywords;
pub mod repo;

pub use crate::db::keywords::Keywords;
pub use crate::db::repo::{Epoch, Rank, Repo, RepoView};

use vstd::prelude::*;
use crate::db::codec::{
    file_bytes, file_failure, fits_file, get_u32, get_u64, header_version, joined,
    lemma_file_round_trip, lemma_file_sound, lemma_items_bytes_push, lemma_parse_items_none,
    lemma_parse_items_step, parse_file, parse_items,
    put_u32, put_u64, items_bytes, MAX_SIZE,
};
use crate::db::repo::{
    lemma_record_layout, record_enc, record_parse, record_valid, valid_record, views,
};
use crate::db::repo::{directory_of, score_quarters, MAX_RANK};
use crate::errors::Error;
use crate::text::{chars_of, contains_chars, contains_text, same_chars};
use crate::util::{name_base, name_group, paths_equal, same_path, separator, split_chars};

verus! {

/// The position of the first record at or after `from` that meets `wanted`.
pub open spec fn first_from(
    records: Seq<RepoView>,
    wanted: spec_fn(RepoView) -> bool,
    from: int,
) -> Option<int>
    decreases records.len() - from,
{
    if from < 0 || from >= records.len() {
        None
    } else if wanted(records[from]) {
        Some(from)
    } else {
        first_from(records, wanted, from + 1)
    }
}

/// The position of the first record that meets `wanted`.
pub open spec fn first_match(records: Seq<RepoView>, wanted: spec_fn(RepoView) -> bool) -> Option<
    int,
> {
    first_from(records, wanted, 0)
}

/// `first_from` finds a record that meets `wanted` and has none before it
/// that does, or finds none where no record does.
pub proof fn lemma_first_from(
    records: Seq<RepoView>,
    wanted: spec_fn(RepoView) -> bool,
    from: int,
)
    requires
        0 <= from <= records.len(),
    ensures
        match first_from(records, wanted, from) {
            Some(i) => from <= i < records.len() && wanted(records[i]) && forall|j: int|
                from <= j < i ==> !wanted(#[trigger] records[j]),
            None => forall|j: int| from <= j < records.len() ==> !wanted(#[trigger] records[j]),
        },
    decreases records.len() - from,
{
    if from < records.len() && !wanted(records[from]) {
        lemma_first_from(records, wanted, from + 1);
    }
}

/// The position `i` is the first that meets `wanted` where it meets it and
/// none before it does.
pub proof fn lemma_first_match_is(
    records: Seq<RepoView>,
    wanted: spec_fn(RepoView) -> bool,
    i: int,
)
    requires
        0 <= i < records.len(),
        wanted(records[i]),
        forall|j: int| 0 <= j < i ==> !wanted(#[trigger] records[j]),
    ensures
        first_match(records, wanted) == Some(i),
{
    lemma_first_from(records, wanted, 0);
}

/// No position meets `wanted` where no record does.
pub proof fn lemma_first_match_none(records: Seq<RepoView>, wanted: spec_fn(RepoView) -> bool)
    requires
        forall|j: int| 0 <= j < records.len() ==> !wanted(#[trigger] records[j]),
    ensures
        first_match(records, wanted) is None,
{
    lemma_first_from(records, wanted, 0);
}

/// The record is the one of this remote and name.
pub open spec fn has_key(remote: Seq<char>, name: Seq<char>) -> spec_fn(RepoView) -> bool {
    |r: RepoView| r.remote == remote && r.name == name
}

/// The record is bound to this path by an override of its own.
pub open spec fn has_path(path: Seq<char>) -> spec_fn(RepoView) -> bool {
    |r: RepoView| r.path.len() > 0 && r.path == path
}

/// The directory of the record, for this workspace, is the same path as
/// `dir`.
pub open spec fn has_directory(workspace: Seq<char>, dir: Seq<char>) -> spec_fn(RepoView) -> bool {
    |r: RepoView| same_path(directory_of(r, workspace), dir)
}

/// The record matches the keyword: it lies under `remote`, where one is
/// given, and the keyword is part of its base name. A keyword with a
/// separator is split at its last separator into group and base: the group
/// must then be the group of the record, and the base part of its base.
pub open spec fn matches_keyword(remote: Seq<char>, keyword: Seq<char>) -> spec_fn(
    RepoView,
) -> bool {
    |r: RepoView|
        {
            &&& remote.len() == 0 || r.remote == remote
            &&& keyword.contains(separator()) ==> name_group(r.name) == name_group(keyword)
            &&& contains_text(name_base(r.name), name_base(keyword))
        }
}

/// No two records of the list have the same remote and name.
pub open spec fn unique_keys(records: Seq<RepoView>) -> bool {
    forall|i: int, j: int|
        0 <= i < j < records.len() ==> !(records[i].remote == records[j].remote
            && records[i].name == records[j].name)
}

/// `from` names, for each position of a reordered list, the position that its
/// record had before: every old position is named exactly once.
pub open spec fn is_reordering(from: Seq<int>, len: nat) -> bool {
    &&& from.len() == len
    &&& forall|i: int| 0 <= i < len ==> 0 <= #[trigger] from[i] < len
    &&& forall|i: int, j: int| 0 <= i < j < len ==> from[i] != from[j]
}

/// `after` is `before` sorted by descending score at `now`, and records of
/// equal score stand in the order they had: `from` names the old position of
/// each record.
pub open spec fn is_stable_sort(
    before: Seq<RepoView>,
    after: Seq<RepoView>,
    now: Epoch,
    from: Seq<int>,
) -> bool {
    &&& after.len() == before.len()
    &&& is_reordering(from, before.len())
    &&& forall|i: int| 0 <= i < after.len() ==> #[trigger] after[i] == before[from[i]]
    &&& forall|i: int, j: int|
        0 <= i < j < after.len() ==> score_quarters(after[i], now) >= score_quarters(
            after[j],
            now,
        )
    &&& forall|i: int, j: int|
        0 <= i < j < after.len() && score_quarters(after[i], now) == score_quarters(
            after[j],
            now,
        ) ==> from[i] < from[j]
}

/// A stable sort keeps the records: each as often as it stood before.
pub proof fn lemma_sort_keeps_records(
    before: Seq<RepoView>,
    after: Seq<RepoView>,
    now: Epoch,
    from: Seq<int>,
)
    requires
        is_stable_sort(before, after, now, from),
    ensures
        after.to_multiset() == before.to_multiset(),
    decreases before.len(),
{
    lemma_reordering_keeps(before, after, from);
}

/// A list reordered holds what it held: each record as often as before.
pub proof fn lemma_reordering_keeps(before: Seq<RepoView>, after: Seq<RepoView>, from: Seq<int>)
    requires
        after.len() == before.len(),
        is_reordering(from, before.len()),
        forall|i: int| 0 <= i < after.len() ==> #[trigger] after[i] == before[from[i]],
    ensures
        after.to_multiset() == before.to_multiset(),
    decreases before.len(),
{
    if before.len() == 0 {
        assert(after =~= before);
    } else {
        let last = after.len() - 1;
        let at = from[last];
        let fewer = before.remove(at);
        let shorter = after.drop_last();
        let moved = Seq::new(
            last as nat,
            |i: int|
                if from[i] < at {
                    from[i]
                } else {
                    from[i] - 1
                },
        );
        assert forall|i: int| 0 <= i < shorter.len() implies 0 <= #[trigger] moved[i]
            < fewer.len() && shorter[i] == fewer[moved[i]] by {
            assert(from[i] != from[last]);
            assert(shorter[i] == after[i]);
        }
        assert forall|i: int, j: int| 0 <= i < j < shorter.len() implies moved[i] != moved[j] by {
            assert(from[i] != from[j]);
            assert(from[i] != at && from[j] != at);
        }
        lemma_reordering_keeps(fewer, shorter, moved);
        vstd::seq_lib::to_multiset_remove(before, at);
        assert(after =~= shorter.push(after[last]));
        vstd::seq_lib::to_multiset_build(shorter, after[last]);
        assert(before.to_multiset().count(before[at]) > 0) by {
            vstd::seq_lib::to_multiset_contains(before, before[at]);
            assert(before.contains(before[at]));
        }
        assert(after.to_multiset() =~= before.to_multiset());
    }
}

/// Where a record is added, its key is found at the position it had before,
/// or, where the store did not hold the key, at the new position.
pub proof fn lemma_get_after_add(records: Seq<RepoView>, added: RepoView)
    ensures
        first_match(records.push(added), has_key(added.remote, added.name)) == match first_match(
            records,
            has_key(added.remote, added.name),
        ) {
            Some(i) => Some(i),
            None => Some(records.len() as int),
        },
{
    let wanted = has_key(added.remote, added.name);
    let grown = records.push(added);
    lemma_first_from(records, wanted, 0);
    match first_match(records, wanted) {
        Some(i) => {
            assert(grown[i] == records[i]);
            assert forall|j: int| 0 <= j < i implies !wanted(#[trigger] grown[j]) by {
                assert(grown[j] == records[j]);
            }
            lemma_first_match_is(grown, wanted, i);
        },
        None => {
            assert forall|j: int| 0 <= j < records.len() implies !wanted(#[trigger] grown[j]) by {
                assert(grown[j] == records[j]);
            }
            assert(wanted(grown[records.len() as int]));
            lemma_first_match_is(grown, wanted, records.len() as int);
        },
    }
}

/// The position found as an `int`.
pub open spec fn as_position(found: Option<usize>) -> Option<int> {
    match found {
        Some(i) => Some(i as int),
        None => None,
    }
}

/// The one version of the store file that is read and written.
pub const VERSION: u32 = 1;

/// The bytes of the store file for a list of records.
pub open spec fn store_bytes(records: Seq<RepoView>) -> Seq<u8> {
    file_bytes(VERSION, records, record_enc())
}

/// Whether a list of records can be read back from its file: every record is
/// one that the format can hold, and the file stays within the size limit.
pub open spec fn fits_store(records: Seq<RepoView>) -> bool {
    fits_file(records, record_valid(), record_enc())
}

/// Whether every record of the list is one that the format can hold.
pub open spec fn all_valid(records: Seq<RepoView>) -> bool {
    forall|i: int| 0 <= i < records.len() ==> valid_record(#[trigger] records[i])
}

/// Whether `b` is the file of some list of records that fits a file.
pub open spec fn is_store_file(b: Seq<u8>) -> bool {
    exists|records: Seq<RepoView>| fits_store(records) && b == store_bytes(records)
}

/// Reading the file of a list gives the list back: for every list of records
/// that fits a file, the empty list and records with an empty path among
/// them, the records read from its bytes are the records written.
pub proof fn lemma_store_round_trip(records: Seq<RepoView>)
    requires
        fits_store(records),
    ensures
        parse_file(store_bytes(records), VERSION, record_parse()) == Ok::<Seq<RepoView>, Error>(
            records,
        ),
{
    lemma_record_layout();
    lemma_file_round_trip(VERSION, records, record_valid(), record_enc(), record_parse());
}

/// What is written for a list that fits a file is a file of the store, so it
/// is read.
pub proof fn lemma_written_is_read(records: Seq<RepoView>)
    requires
        fits_store(records),
    ensures
        is_store_file(store_bytes(records)),
{
}

/// Two lists with the same file are the same list: what is read from the
/// bytes that were written for a list is that list.
pub proof fn lemma_store_bytes_injective(a: Seq<RepoView>, b: Seq<RepoView>)
    requires
        fits_store(a),
        fits_store(b),
        store_bytes(a) == store_bytes(b),
    ensures
        a == b,
{
    lemma_store_round_trip(a);
    lemma_store_round_trip(b);
}

/// The records of the store, in the order of the last sort.
pub struct Database {
    path: String,
    repos: Vec<Repo>,
    dirty: bool,
}

impl Database {
    /// The records, as values.
    pub closed spec fn records(&self) -> Seq<RepoView> {
        views(self.repos@)
    }

    /// Whether the store was changed since it was opened or saved.
    pub closed spec fn is_dirty(&self) -> bool {
        self.dirty
    }

    /// The file that the store is bound to.
    pub closed spec fn file(&self) -> Seq<char> {
        self.path@
    }

    /// The store bound to `path`, with what its file holds: the records read
    /// from `contents`, or no record where the file does not exist yet.
    pub fn open(path: String, contents: Option<&[u8]>) -> (r: Result<Database, Error>)
        ensures
            match contents {
                None => (r matches Ok(db) && db.records().len() == 0),
                Some(bytes) => {
                    &&& r is Ok <==> is_store_file(bytes@)
                    &&& r matches Ok(db) ==> fits_store(db.records()) && bytes@ == store_bytes(
                        db.records(),
                    )
                    &&& bytes.len() < 4 ==> r == Err::<Database, Error>(Error::CorruptData)
                    &&& bytes.len() >= 4 && header_version(bytes@) != VERSION ==> r == Err::<
                        Database,
                        Error,
                    >(Error::UnsupportedVersion(header_version(bytes@)))
                    &&& r matches Err(e) ==> e == file_failure(bytes@, VERSION)
                },
            },
            r matches Ok(db) ==> !db.is_dirty() && db.file() == path@,
    {
        match contents {
            None => {
                let repos: Vec<Repo> = Vec::new();
                proof {
                    assert(views(repos@) =~= Seq::<RepoView>::empty());
                }
                Ok(Database { path, repos, dirty: false })
            },
            Some(bytes) => match Database::deserialize(bytes) {
                Ok(repos) => Ok(Database { path, repos, dirty: false }),
                Err(e) => Err(e),
            },
        }
    }

    /// What is to be written to the file of the store: the bytes of the
    /// records where the store was changed, and nothing where it was not.
    /// The store counts as saved afterwards.
    pub fn save(&mut self) -> (r: Result<Option<Vec<u8>>, Error>)
        ensures
            final(self).records() == old(self).records(),
            final(self).file() == old(self).file(),
            match r {
                Ok(None) => !old(self).is_dirty() && !final(self).is_dirty(),
                Ok(Some(bytes)) => old(self).is_dirty() && !final(self).is_dirty() && all_valid(
                    old(self).records(),
                ) && bytes@ == store_bytes(old(self).records()),
                Err(e) => e == Error::Unencodable && old(self).is_dirty()
                    && final(self).is_dirty() && !all_valid(old(self).records()),
            },
    {
        if !self.dirty {
            return Ok(None);
        }
        match Database::serialize(&self.repos) {
            Ok(bytes) => {
                self.dirty = false;
                Ok(Some(bytes))
            },
            Err(e) => Err(e),
        }
    }

    /// The file that the store is bound to.
    pub fn path(&self) -> (r: &str)
        ensures
            r@ == self.file(),
    {
        self.path.as_str()
    }

    /// The records in store order.
    pub fn repos(&self) -> (r: &Vec<Repo>)
        ensures
            views(r@) == self.records(),
    {
        &self.repos
    }

    /// The number of records.
    pub fn len(&self) -> (n: usize)
        ensures
            n == self.records().len(),
    {
        self.repos.len()
    }

    /// Whether the store was changed since it was opened or saved.
    pub fn dirty(&self) -> (r: bool)
        ensures
            r == self.is_dirty(),
    {
        self.dirty
    }

    /// The position of the record of this remote and name.
    pub fn get(&self, remote: &str, name: &str) -> (r: Option<usize>)
        ensures
            as_position(r) == first_match(self.records(), has_key(remote@, name@)),
            match r {
                Some(i) => i < self.records().len() && self.records()[i as int].remote == remote@
                    && self.records()[i as int].name == name@,
                None => forall|j: int|
                    0 <= j < self.records().len() ==> !(self.records()[j].remote == remote@
                        && self.records()[j].name == name@),
            },
    {
        let remote_chars = chars_of(remote);
        let name_chars = chars_of(name);
        let mut i: usize = 0;
        while i < self.repos.len()
            invariant
                i <= self.repos.len(),
                remote_chars@ == remote@,
                name_chars@ == name@,
                forall|j: int|
                    0 <= j < i ==> !has_key(remote@, name@)(#[trigger] self.records()[j]),
            decreases self.repos.len() - i,
        {
            let repo = &self.repos[i];
            if same_chars(&chars_of(repo.remote.as_str()), &remote_chars) && same_chars(
                &chars_of(repo.name.as_str()),
                &name_chars,
            ) {
                proof {
                    lemma_first_match_is(self.records(), has_key(remote@, name@), i as int);
                }
                return Some(i);
            }
            i += 1;
        }
        proof {
            lemma_first_match_none(self.records(), has_key(remote@, name@));
            assert forall|j: int| 0 <= j < self.records().len() implies !(self.records()[j].remote
                == remote@ && self.records()[j].name == name@) by {
                assert(!has_key(remote@, name@)(self.records()[j]));
            }
        }
        None
    }

    /// The position of the record bound to `path` by an override of its own.
    /// A record without an override is bound to no path here.
    pub fn get_by_path(&self, path: &str) -> (r: Option<usize>)
        ensures
            as_position(r) == first_match(self.records(), has_path(path@)),
            match r {
                Some(i) => i < self.records().len() && self.records()[i as int].path == path@
                    && path@.len() > 0,
                None => forall|j: int|
                    0 <= j < self.records().len() ==> self.records()[j].path.len() == 0
                        || self.records()[j].path != path@,
            },
    {
        let path_chars = chars_of(path);
        let mut i: usize = 0;
        while i < self.repos.len()
            invariant
                i <= self.repos.len(),
                path_chars@ == path@,
                forall|j: int| 0 <= j < i ==> !has_path(path@)(#[trigger] self.records()[j]),
            decreases self.repos.len() - i,
        {
            let own = chars_of(self.repos[i].path.as_str());
            if own.len() > 0 && same_chars(&own, &path_chars) {
                proof {
                    lemma_first_match_is(self.records(), has_path(path@), i as int);
                }
                return Some(i);
            }
            i += 1;
        }
        proof {
            lemma_first_match_none(self.records(), has_path(path@));
            assert forall|j: int| 0 <= j < self.records().len() implies self.records()[j].path.len()
                == 0 || self.records()[j].path != path@ by {
                assert(!has_path(path@)(self.records()[j]));
            }
        }
        None
    }

    /// Appends a record that was never used, whatever the store holds, and
    /// gives its position. The keys of the store stay unique where they were
    /// and the new key was not among them.
    pub fn add(&mut self, remote: &str, name: &str, path: &str) -> (r: usize)
        ensures
            r == old(self).records().len(),
            final(self).records() == old(self).records().push(
                RepoView {
                    remote: remote@,
                    name: name@,
                    path: path@,
                    last_accessed: 0,
                    accessed: 0,
                },
            ),
            final(self).is_dirty(),
            final(self).file() == old(self).file(),
            unique_keys(old(self).records()) && first_match(
                old(self).records(),
                has_key(remote@, name@),
            ) is None ==> unique_keys(final(self).records()),
    {
        let repo = Repo {
            remote: remote.to_owned(),
            name: name.to_owned(),
            path: path.to_owned(),
            last_accessed: 0,
            accessed: 0,
        };
        proof {
            assert(views(self.repos@.push(repo)) =~= views(self.repos@).push(repo@));
            lemma_first_from(old(self).records(), has_key(remote@, name@), 0);
            if unique_keys(old(self).records()) && first_match(
                old(self).records(),
                has_key(remote@, name@),
            ) is None {
                let l = old(self).records();
                let m = l.push(repo@);
                assert forall|i: int, j: int| 0 <= i < j < m.len() implies !(m[i].remote
                    == m[j].remote && m[i].name == m[j].name) by {
                    if j == l.len() {
                        assert(!has_key(remote@, name@)(l[i]));
                    }
                }
            }
        }
        self.repos.push(repo);
        self.dirty = true;
        self.repos.len() - 1
    }

    /// The position of the record of this remote and name, which is expected
    /// to exist.
    pub fn must_get(&self, remote: &str, name: &str) -> (r: Result<usize, Error>)
        ensures
            match r {
                Ok(i) => i < self.records().len() && first_match(
                    self.records(),
                    has_key(remote@, name@),
                ) == Some(i as int),
                Err(e) => e@ == crate::errors::ErrorView::UnknownRepo(remote@, name@)
                    && first_match(self.records(), has_key(remote@, name@)) is None,
            },
    {
        match self.get(remote, name) {
            Some(i) => Ok(i),
            None => Err(Error::UnknownRepo(remote.to_owned(), name.to_owned())),
        }
    }

    /// The position of the first record in store order that matches the
    /// keyword under `remote`; an empty `remote` searches all records.
    pub fn match_keyword(&self, remote: &str, keyword: &str) -> (r: Result<usize, Error>)
        ensures
            match r {
                Ok(i) => i < self.records().len() && matches_keyword(remote@, keyword@)(
                    self.records()[i as int],
                ) && first_match(self.records(), matches_keyword(remote@, keyword@)) == Some(
                    i as int,
                ),
                Err(e) => e@ == crate::errors::ErrorView::ResolutionFailed(keyword@)
                    && first_match(self.records(), matches_keyword(remote@, keyword@)) is None,
            },
    {
        let remote_chars = chars_of(remote);
        let keyword_chars = chars_of(keyword);
        let (group, base) = split_chars(&keyword_chars);
        let grouped = crate::text::last_index_of_char(&keyword_chars, '/').is_some();
        proof {
            crate::text::lemma_last_index_of(keyword@, separator());
            if keyword@.contains(separator()) {
                let k = choose|k: int| 0 <= k < keyword@.len() && keyword@[k] == separator();
                assert(grouped);
            }
        }
        let mut i: usize = 0;
        while i < self.repos.len()
            invariant
                i <= self.repos.len(),
                remote_chars@ == remote@,
                group@ == name_group(keyword@),
                base@ == name_base(keyword@),
                grouped == keyword@.contains(separator()),
                forall|j: int|
                    0 <= j < i ==> !matches_keyword(remote@, keyword@)(
                        #[trigger] self.records()[j],
                    ),
            decreases self.repos.len() - i,
        {
            let repo = &self.repos[i];
            let in_scope = remote_chars.len() == 0 || same_chars(
                &chars_of(repo.remote.as_str()),
                &remote_chars,
            );
            if in_scope {
                let (repo_group, repo_base) = split_chars(&chars_of(repo.name.as_str()));
                if (!grouped || same_chars(&repo_group, &group)) && contains_chars(
                    &repo_base,
                    &base,
                ) {
                    proof {
                        lemma_first_match_is(
                            self.records(),
                            matches_keyword(remote@, keyword@),
                            i as int,
                        );
                    }
                    return Ok(i);
                }
            }
            i += 1;
        }
        proof {
            lemma_first_match_none(self.records(), matches_keyword(remote@, keyword@));
        }
        Err(Error::ResolutionFailed(keyword.to_owned()))
    }

    /// Counts one use of the record at `idx` at the time `now`: its weight
    /// grows by one, up to `MAX_RANK`, and `now` becomes the time of its last
    /// use.
    pub fn update(&mut self, idx: usize, now: Epoch)
        requires
            idx < old(self).records().len(),
        ensures
            final(self).records() == old(self).records().update(
                idx as int,
                RepoView {
                    last_accessed: now,
                    accessed: if old(self).records()[idx as int].accessed < MAX_RANK {
                        (old(self).records()[idx as int].accessed + 1) as Rank
                    } else {
                        old(self).records()[idx as int].accessed
                    },
                    ..old(self).records()[idx as int]
                },
            ),
            final(self).is_dirty(),
            final(self).file() == old(self).file(),
            unique_keys(old(self).records()) ==> unique_keys(final(self).records()),
    {
        let ghost before = self.repos@;
        let mut repo = self.repos.remove(idx);
        repo.last_accessed = now;
        if repo.accessed < MAX_RANK {
            repo.accessed = repo.accessed + 1;
        }
        self.repos.insert(idx, repo);
        self.dirty = true;
        proof {
            assert(views(self.repos@) =~= views(before).update(idx as int, repo@));
            let l = old(self).records();
            let m = final(self).records();
            if unique_keys(l) {
                assert forall|i: int, j: int| 0 <= i < j < m.len() implies !(m[i].remote
                    == m[j].remote && m[i].name == m[j].name) by {
                    assert(m[i].remote == l[i].remote && m[i].name == l[i].name);
                    assert(m[j].remote == l[j].remote && m[j].name == l[j].name);
                }
            }
        }
    }

    /// Sorts the records by descending score at `now`. The sort is stable:
    /// records of equal score keep their order.
    pub fn sort(&mut self, now: Epoch)
        ensures
            exists|from: Seq<int>|
                is_stable_sort(old(self).records(), final(self).records(), now, from),
            final(self).is_dirty(),
            final(self).file() == old(self).file(),
            unique_keys(old(self).records()) ==> unique_keys(final(self).records()),
    {
        let ghost before = self.records();
        let ghost mut from: Seq<int> = Seq::new(before.len(), |i: int| i);
        let n = self.repos.len();
        let mut i: usize = 0;
        while i < n
            invariant
                i <= n,
                n == before.len(),
                self.repos@.len() == n,
                self.path == old(self).path,
                is_reordering(from, n as nat),
                forall|k: int| 0 <= k < n ==> #[trigger] self.records()[k] == before[from[k]],
                forall|k: int| i <= k < n ==> from[k] == k,
                forall|k: int| 0 <= k < i ==> from[k] < i,
                forall|a: int, b: int|
                    0 <= a < b < i ==> score_quarters(self.records()[a], now) >= score_quarters(
                        self.records()[b],
                        now,
                    ),
                forall|a: int, b: int|
                    0 <= a < b < i && score_quarters(self.records()[a], now) == score_quarters(
                        self.records()[b],
                        now,
                    ) ==> from[a] < from[b],
            decreases n - i,
        {
            let own = self.repos[i].score(now);
            let mut j: usize = 0;
            while j < i && self.repos[j].score(now) >= own
                invariant
                    j <= i < n,
                    self.repos@.len() == n,
                    own == score_quarters(self.records()[i as int], now),
                    forall|k: int|
                        0 <= k < j ==> score_quarters(#[trigger] self.records()[k], now) >= own,
                decreases i - j,
            {
                j += 1;
            }
            let ghost cur = self.records();
            let ghost held = self.repos@;
            let repo = self.repos.remove(i);
            self.repos.insert(j, repo);
            proof {
                let moved = from.remove(i as int).insert(j as int, i as int);
                assert(views(self.repos@) =~= cur.remove(i as int).insert(j as int, cur[i as int]))
                    by {
                    assert(self.repos@ =~= held.remove(i as int).insert(j as int, repo));
                    assert(views(held.remove(i as int).insert(j as int, repo)) =~= views(
                        held,
                    ).remove(i as int).insert(j as int, repo@));
                }
                let next = self.records();
                assert forall|k: int| 0 <= k < n implies {
                    &&& 0 <= #[trigger] moved[k] < n
                    &&& next[k] == before[moved[k]]
                    &&& moved[k] == (if k < j {
                        from[k]
                    } else if k == j {
                        i as int
                    } else if k <= i {
                        from[k - 1]
                    } else {
                        from[k]
                    })
                    &&& next[k] == (if k < j {
                        cur[k]
                    } else if k == j {
                        cur[i as int]
                    } else if k <= i {
                        cur[k - 1]
                    } else {
                        cur[k]
                    })
                } by {}
                assert forall|a: int, b: int| 0 <= a < b < n implies moved[a] != moved[b] by {
                    assert(0 <= moved[a] < n && 0 <= moved[b] < n);
                }
                assert forall|a: int, b: int| 0 <= a < b < i + 1 implies score_quarters(
                    next[a],
                    now,
                ) >= score_quarters(next[b], now) by {
                    assert(0 <= moved[a] < n && 0 <= moved[b] < n);
                    if j < i {
                        assert(score_quarters(cur[j as int], now) < own);
                    }
                }
                assert forall|a: int, b: int|
                    0 <= a < b < i + 1 && score_quarters(next[a], now) == score_quarters(
                        next[b],
                        now,
                    ) implies moved[a] < moved[b] by {
                    assert(0 <= moved[a] < n && 0 <= moved[b] < n);
                    if j < i {
                        assert(score_quarters(cur[j as int], now) < own);
                    }
                }
                from = moved;
            }
            i += 1;
        }
        let ghost sorted = self.records();
        assert(forall|k: int| 0 <= k < n ==> #[trigger] sorted[k] == before[from[k]]);
        self.dirty = true;
        proof {
            let after = self.records();
            assert(after == sorted);
            assert(is_stable_sort(before, after, now, from));
            if unique_keys(before) {
                assert forall|a: int, b: int| 0 <= a < b < after.len() implies !(after[a].remote
                    == after[b].remote && after[a].name == after[b].name) by {
                    let x = from[a];
                    let y = from[b];
                    assert(after[a] == before[x] && after[b] == before[y]);
                    if x < y {
                        assert(!(before[x].remote == before[y].remote && before[x].name
                            == before[y].name));
                    } else {
                        assert(!(before[y].remote == before[x].remote && before[y].name
                            == before[x].name));
                    }
                }
            }
        }
    }

    /// The directory of each record, in store order.
    pub fn list_paths(&self, workspace: &str) -> (r: Vec<String>)
        ensures
            r.len() == self.records().len(),
            forall|i: int|
                0 <= i < r.len() ==> (#[trigger] r[i])@ == directory_of(
                    self.records()[i],
                    workspace@,
                ),
    {
        let mut paths: Vec<String> = Vec::new();
        let mut i: usize = 0;
        while i < self.repos.len()
            invariant
                i <= self.repos.len(),
                paths.len() == i,
                forall|j: int|
                    0 <= j < i ==> (#[trigger] paths[j])@ == directory_of(
                        self.records()[j],
                        workspace@,
                    ),
            decreases self.repos.len() - i,
        {
            paths.push(self.repos[i].path(workspace));
            i += 1;
        }
        paths
    }

    /// The position of the first directory of `paths` that is the same path
    /// as `dir`.
    pub fn position_of_path(paths: &Vec<String>, dir: &str) -> (r: Option<usize>)
        ensures
            match r {
                Some(i) => i < paths.len() && same_path(paths[i as int]@, dir@) && forall|j: int|
                    0 <= j < i ==> !same_path(paths[j]@, dir@),
                None => forall|j: int| 0 <= j < paths.len() ==> !same_path(paths[j]@, dir@),
            },
    {
        let mut i: usize = 0;
        while i < paths.len()
            invariant
                i <= paths.len(),
                forall|j: int| 0 <= j < i ==> !same_path(paths[j]@, dir@),
            decreases paths.len() - i,
        {
            if paths_equal(paths[i].as_str(), dir) {
                return Some(i);
            }
            i += 1;
        }
        None
    }

    /// The position of the first record whose directory is the same path as
    /// `current_dir`.
    pub fn current(&self, workspace: &str, current_dir: &str) -> (r: Result<usize, Error>)
        ensures
            match r {
                Ok(i) => i < self.records().len() && first_match(
                    self.records(),
                    has_directory(workspace@, current_dir@),
                ) == Some(i as int),
                Err(e) => e@ == crate::errors::ErrorView::NotBound && first_match(
                    self.records(),
                    has_directory(workspace@, current_dir@),
                ) is None,
            },
    {
        let paths = self.list_paths(workspace);
        let found = Database::position_of_path(&paths, current_dir);
        proof {
            let wanted = has_directory(workspace@, current_dir@);
            let upto = match found {
                Some(i) => i as int,
                None => paths.len() as int,
            };
            assert forall|j: int| 0 <= j < upto implies !wanted(#[trigger] self.records()[j]) by {
                assert(paths[j]@ == directory_of(self.records()[j], workspace@));
                assert(!same_path(paths[j]@, current_dir@));
            }
            match found {
                Some(i) => {
                    assert(paths[i as int]@ == directory_of(
                        self.records()[i as int],
                        workspace@,
                    ));
                    lemma_first_match_is(self.records(), wanted, i as int);
                },
                None => {
                    lemma_first_match_none(self.records(), wanted);
                },
            }
        }
        match found {
            Some(i) => Ok(i),
            None => Err(Error::NotBound),
        }
    }

    /// Takes the record at `idx` out of the store.
    pub fn remove(&mut self, idx: usize) -> (r: Repo)
        requires
            idx < old(self).records().len(),
        ensures
            r@ == old(self).records()[idx as int],
            final(self).records() == old(self).records().remove(idx as int),
            final(self).is_dirty(),
            final(self).file() == old(self).file(),
            unique_keys(old(self).records()) ==> unique_keys(final(self).records()),
    {
        let ghost before = self.repos@;
        let repo = self.repos.remove(idx);
        self.dirty = true;
        proof {
            assert(views(self.repos@) =~= views(before).remove(idx as int));
            let l = old(self).records();
            let m = final(self).records();
            if unique_keys(l) {
                assert forall|i: int, j: int| 0 <= i < j < m.len() implies !(m[i].remote
                    == m[j].remote && m[i].name == m[j].name) by {
                    let a = if i < idx { i } else { i + 1 };
                    let b = if j < idx { j } else { j + 1 };
                    assert(m[i] == l[a] && m[j] == l[b]);
                }
            }
        }
        repo
    }

    /// The bytes of the store file for `repos`. A record whose weight is
    /// beyond `MAX_RANK` cannot be written.
    pub fn serialize(repos: &Vec<Repo>) -> (r: Result<Vec<u8>, Error>)
        ensures
            match r {
                Ok(bytes) => all_valid(views(repos@)) && bytes@ == store_bytes(views(repos@)),
                Err(e) => e == Error::Unencodable && !all_valid(views(repos@)),
            },
    {
        let mut out: Vec<u8> = Vec::new();
        put_u32(&mut out, VERSION);
        put_u64(&mut out, repos.len() as u64);
        let ghost head = out@;
        let mut i: usize = 0;
        proof {
            assert(views(repos@).take(0) =~= Seq::<RepoView>::empty());
            assert(out@ =~= head + items_bytes(views(repos@).take(0), record_enc()));
        }
        while i < repos.len()
            invariant
                i <= repos.len(),
                out@ == head + items_bytes(views(repos@).take(i as int), record_enc()),
                forall|j: int| 0 <= j < i ==> valid_record(#[trigger] views(repos@)[j]),
            decreases repos.len() - i,
        {
            let ghost before = out@;
            let done = repos[i].write_to(&mut out);
            if !done {
                proof {
                    assert(!valid_record(views(repos@)[i as int]));
                }
                return Err(Error::Unencodable);
            }
            proof {
                let l = views(repos@);
                lemma_items_bytes_push(l.take(i as int), l[i as int], record_enc());
                assert(l.take(i + 1) =~= l.take(i as int).push(l[i as int]));
                assert(out@ =~= head + items_bytes(l.take(i + 1), record_enc()));
            }
            i += 1;
        }
        proof {
            let l = views(repos@);
            assert(l.take(repos.len() as int) =~= l);
            assert(out@ =~= store_bytes(l));
        }
        Ok(out)
    }

    /// Reads `count` records from position 12 on: the records and the
    /// position after them.
    fn read_records(bytes: &[u8], count: u64) -> (r: Option<(Vec<Repo>, usize)>)
        requires
            12 <= bytes.len(),
        ensures
            match r {
                Some((repos, end)) => 12 <= end <= bytes.len() && parse_items(
                    bytes@.skip(12),
                    count as nat,
                    record_parse(),
                ) == Some((views(repos@), (end - 12) as nat)),
                None => parse_items(bytes@.skip(12), count as nat, record_parse()) is None,
            },
    {
        let mut repos: Vec<Repo> = Vec::new();
        let mut pos: usize = 12;
        let mut i: u64 = 0;
        proof {
            assert(views(repos@) =~= Seq::<RepoView>::empty());
            let whole = parse_items(bytes@.skip(12), count as nat, record_parse());
            match whole {
                None => {},
                Some((rest, m)) => {
                    assert(views(repos@) + rest =~= rest);
                },
            }
        }
        while i < count
            invariant
                12 <= pos <= bytes.len(),
                i <= count,
                parse_items(bytes@.skip(12), count as nat, record_parse()) == joined(
                    views(repos@),
                    (pos - 12) as nat,
                    parse_items(bytes@.skip(pos as int), (count - i) as nat, record_parse()),
                ),
            decreases count - i,
        {
            let found = Repo::read_from(bytes, pos);
            proof {
                lemma_parse_items_step(
                    bytes@,
                    12,
                    pos as int,
                    (count - i) as nat,
                    views(repos@),
                    record_parse(),
                );
            }
            match found {
                None => {
                    return None;
                },
                Some((repo, next)) => {
                    proof {
                        assert(views(repos@.push(repo)) =~= views(repos@).push(repo@));
                    }
                    repos.push(repo);
                    pos = next;
                    i += 1;
                },
            }
        }
        proof {
            lemma_parse_items_none(
                bytes@.skip(pos as int),
                views(repos@),
                (pos - 12) as nat,
                record_parse(),
            );
        }
        Some((repos, pos))
    }

    /// The records that the bytes of a store file hold.
    ///
    /// Fewer bytes than a version takes are corrupt data. A version other
    /// than `VERSION` is refused before anything after it is looked at.
    /// Beyond that the bytes are read if and only if they are the file of
    /// some list of records that fits a file, and then the result is that
    /// list; all else is corrupt data.
    pub fn deserialize(bytes: &[u8]) -> (r: Result<Vec<Repo>, Error>)
        ensures
            bytes.len() < 4 ==> r == Err::<Vec<Repo>, Error>(Error::CorruptData),
            bytes.len() >= 4 && header_version(bytes@) != VERSION ==> r == Err::<Vec<Repo>, Error>(
                Error::UnsupportedVersion(header_version(bytes@)),
            ),
            r is Ok <==> is_store_file(bytes@),
            r matches Ok(repos) ==> fits_store(views(repos@)) && bytes@ == store_bytes(
                views(repos@),
            ),
            r matches Err(e) ==> e == file_failure(bytes@, VERSION),
    {
        proof {
            lemma_record_layout();
            lemma_file_sound(bytes@, VERSION, record_valid(), record_enc(), record_parse());
            assert forall|l: Seq<RepoView>| fits_store(l) && bytes@ == store_bytes(
                l,
            ) implies parse_file(bytes@, VERSION, record_parse()) is Ok by {
                lemma_store_round_trip(l);
            }
        }
        if bytes.len() < 4 {
            return Err(Error::CorruptData);
        }
        let version = get_u32(bytes, 0);
        proof {
            assert(bytes@.take(4) =~= bytes@.subrange(0, 4));
        }
        if version != VERSION {
            return Err(Error::UnsupportedVersion(version));
        }
        if bytes.len() - 4 > MAX_SIZE || bytes.len() < 12 {
            return Err(Error::CorruptData);
        }
        let count = get_u64(bytes, 4);
        match Database::read_records(bytes, count) {
            None => {
                assert(parse_file(bytes@, VERSION, record_parse()) is Err);
                Err(Error::CorruptData)
            },
            Some((repos, end)) => {
                if end != bytes.len() {
                    assert(parse_file(bytes@, VERSION, record_parse()) is Err);
                    return Err(Error::CorruptData);
                }
                proof {
                    assert(parse_file(bytes@, VERSION, record_parse()) == Ok::<
                        Seq<RepoView>,
                        Error,
                    >(views(repos@)));
                    assert(fits_store(views(repos@)) && bytes@ == store_bytes(views(repos@)));
                }
                Ok(repos)
            },
        }
    }
}

} // verus!
