//! One tracked repository and its ranking.

use vstd::prelude::*;
use crate::db::binary64::{lemma_rank_bits_fields, rank_bits, rank_from_bits, rank_to_bits, binade};
use crate::db::codec::{
    layout_of, le_bytes, lemma_le_bytes_len, lemma_parse_text_complete, lemma_parse_text_sound,
    lemma_parse_u64_complete, lemma_parse_u64_sound, parse_text, parse_u64, put_text, put_u64,
    read_text, read_u64, text_bytes, text_fits,
};
use crate::config::Remote;
use crate::text::{
    append_chars, chars_of, same_chars, split_chars_on, split_text, string_of,
};
use crate::util::{join_path, joined_path, name_group, split_chars, DAY, HOUR, WEEK};

verus! {

/// Seconds since the Unix epoch.
pub type Epoch = u64;

/// A usage weight: the number of times a record was used.
pub type Rank = u64;

/// The largest weight a record can reach. Beyond it the file format, which
/// holds the weight as a binary64 number, could no longer tell a weight from
/// its successor.
pub const MAX_RANK: Rank = 0x20_0000_0000_0000;

/// A record of the store.
#[derive(Debug, Clone, PartialEq, Eq)]
pub struct Repo {
    /// The remote that scopes the name.
    pub remote: String,
    /// The repository name, most often `group/base`.
    pub name: String,
    /// An absolute path that overrides the derived one; empty where the path
    /// is derived from workspace, remote and name.
    pub path: String,
    /// When the record was last used.
    pub last_accessed: Epoch,
    /// How often the record was used.
    pub accessed: Rank,
}

/// The mathematical value of a record.
pub struct RepoView {
    pub remote: Seq<char>,
    pub name: Seq<char>,
    pub path: Seq<char>,
    pub last_accessed: Epoch,
    pub accessed: Rank,
}

impl View for Repo {
    type V = RepoView;

    open spec fn view(&self) -> RepoView {
        RepoView {
            remote: self.remote@,
            name: self.name@,
            path: self.path@,
            last_accessed: self.last_accessed,
            accessed: self.accessed,
        }
    }
}

/// The time that has passed between `last` and `now`; none where `last` lies
/// in the future.
pub open spec fn elapsed(last: Epoch, now: Epoch) -> int {
    if now >= last {
        now - last
    } else {
        0
    }
}

/// Four times the decay multiplier for a time since the last use: 4 within
/// the hour, 2 within the day, 1/2 within the week and 1/4 after it. Each
/// bound belongs to the older side.
pub open spec fn decay_quarters(elapsed: int) -> int {
    if elapsed < HOUR {
        16
    } else if elapsed < DAY {
        8
    } else if elapsed < WEEK {
        2
    } else {
        1
    }
}

/// The score of a record at `now`, in quarters: its weight times the decay
/// multiplier of the time since its last use.
pub open spec fn score_quarters(r: RepoView, now: Epoch) -> int {
    r.accessed * decay_quarters(elapsed(r.last_accessed, now))
}

/// Whether the file format can hold the record: the weight is at most
/// `MAX_RANK` and each text is short enough for its length field.
pub open spec fn valid_record(r: RepoView) -> bool {
    &&& text_fits(r.remote)
    &&& text_fits(r.name)
    &&& text_fits(r.path)
    &&& r.accessed <= MAX_RANK
}

/// The bytes of a record: remote, name and path as texts, the time of the
/// last use in eight bytes, and the weight as a binary64 number.
pub open spec fn record_bytes(r: RepoView) -> Seq<u8> {
    text_bytes(r.remote) + (text_bytes(r.name) + (text_bytes(r.path) + (le_bytes(
        r.last_accessed as nat,
        8,
    ) + le_bytes(rank_bits(r.accessed) as nat, 8))))
}

/// The weight that `bits` stand for, where they are the binary64 bits of a
/// whole number up to `MAX_RANK`.
pub open spec fn rank_of_bits(bits: u64) -> Option<Rank> {
    if exists|n: Rank| n <= MAX_RANK && rank_bits(n) == bits {
        Some(choose|n: Rank| n <= MAX_RANK && rank_bits(n) == bits)
    } else {
        None
    }
}

/// Reads one record from the front of `b`: the record and the count of bytes
/// it took.
pub open spec fn parse_record(b: Seq<u8>) -> Option<(RepoView, nat)> {
    match parse_text(b) {
        None => None,
        Some((remote, n1)) => match parse_text(b.skip(n1 as int)) {
            None => None,
            Some((name, n2)) => match parse_text(b.skip((n1 + n2) as int)) {
                None => None,
                Some((path, n3)) => match parse_u64(b.skip((n1 + n2 + n3) as int)) {
                    None => None,
                    Some((last_accessed, n4)) => match parse_u64(
                        b.skip((n1 + n2 + n3 + n4) as int),
                    ) {
                        None => None,
                        Some((bits, n5)) => match rank_of_bits(bits) {
                            None => None,
                            Some(accessed) => Some(
                                (
                                    RepoView { remote, name, path, last_accessed, accessed },
                                    n1 + n2 + n3 + n4 + n5,
                                ),
                            ),
                        },
                    },
                },
            },
        },
    }
}

/// Two weights with the same binary64 bits are the same weight.
pub proof fn lemma_rank_bits_injective(a: Rank, b: Rank)
    requires
        a <= MAX_RANK,
        b <= MAX_RANK,
        rank_bits(a) == rank_bits(b),
    ensures
        a == b,
{
    if a >= 1 {
        lemma_rank_bits_fields(a);
    }
    if b >= 1 {
        lemma_rank_bits_fields(b);
    }
    if a >= 1 && b >= 1 {
        let e = binade(a as nat);
        let p = vstd::arithmetic::power2::pow2(e) as int;
        let scale = vstd::arithmetic::power2::pow2((52 - e) as nat) as int;
        vstd::arithmetic::power2::lemma_pow2_pos((52 - e) as nat);
        assert(a - p == b - p) by (nonlinear_arith)
            requires
                (a - p) * scale == (b - p) * scale,
                scale > 0,
        ;
    }
}

/// The bits of a weight stand for that weight.
pub proof fn lemma_rank_of_bits(n: Rank)
    requires
        n <= MAX_RANK,
    ensures
        rank_of_bits(rank_bits(n)) == Some(n),
{
    let m = choose|m: Rank| m <= MAX_RANK && rank_bits(m) == rank_bits(n);
    lemma_rank_bits_injective(m, n);
}

/// `valid_record` as a function value.
pub open spec fn record_valid() -> spec_fn(RepoView) -> bool {
    |r: RepoView| valid_record(r)
}

/// `record_bytes` as a function value.
pub open spec fn record_enc() -> spec_fn(RepoView) -> Seq<u8> {
    |r: RepoView| record_bytes(r)
}

/// `parse_record` as a function value.
pub open spec fn record_parse() -> spec_fn(Seq<u8>) -> Option<(RepoView, nat)> {
    |b: Seq<u8>| parse_record(b)
}

/// The values of the records of a list.
pub open spec fn views(repos: Seq<Repo>) -> Seq<RepoView> {
    repos.map_values(|r: Repo| r@)
}

/// The record layout reads back what it writes, and no record is written in
/// no bytes.
pub proof fn lemma_record_layout()
    ensures
        layout_of(record_valid(), record_enc(), record_parse()),
        forall|r: RepoView| (#[trigger] record_enc()(r)).len() >= 1,
{
    assert forall|r: RepoView, rest: Seq<u8>| valid_record(r) implies #[trigger] parse_record(
        record_bytes(r) + rest,
    ) == Some((r, record_bytes(r).len())) by {
        lemma_record_complete(r, rest);
    }
    assert forall|b: Seq<u8>|
        ((#[trigger] parse_record(b)) matches Some((r, n)) ==> n <= b.len() && valid_record(r)
            && b.take(n as int) == record_bytes(r)) by {
        lemma_record_sound(b);
    }
    assert forall|r: RepoView| (#[trigger] record_enc()(r)).len() >= 1 by {
        lemma_le_bytes_len(rank_bits(r.accessed) as nat, 8);
    }
    assert forall|r: RepoView, rest: Seq<u8>| record_valid()(r) implies #[trigger] record_parse()(
        record_enc()(r) + rest,
    ) == Some((r, record_enc()(r).len())) by {}
    assert forall|b: Seq<u8>|
        ((#[trigger] record_parse()(b)) matches Some((r, n)) ==> n <= b.len() && record_valid()(r)
            && b.take(n as int) == record_enc()(r)) by {}
}

/// A valid record written and followed by anything is read back.
pub proof fn lemma_record_complete(r: RepoView, rest: Seq<u8>)
    requires
        valid_record(r),
    ensures
        parse_record(record_bytes(r) + rest) == Some((r, record_bytes(r).len())),
{
    let t1 = text_bytes(r.remote);
    let t2 = text_bytes(r.name);
    let t3 = text_bytes(r.path);
    let u4 = le_bytes(r.last_accessed as nat, 8);
    let u5 = le_bytes(rank_bits(r.accessed) as nat, 8);
    let b = record_bytes(r) + rest;
    lemma_le_bytes_len(r.last_accessed as nat, 8);
    lemma_le_bytes_len(rank_bits(r.accessed) as nat, 8);
    let r1 = t2 + (t3 + (u4 + (u5 + rest)));
    let r2 = t3 + (u4 + (u5 + rest));
    let r3 = u4 + (u5 + rest);
    let r4 = u5 + rest;
    assert(b =~= t1 + r1);
    lemma_parse_text_complete(r.remote, r1);
    assert(b.skip(t1.len() as int) =~= r1);
    assert(r1 =~= t2 + r2);
    lemma_parse_text_complete(r.name, r2);
    assert(b.skip((t1.len() + t2.len()) as int) =~= r2);
    lemma_parse_text_complete(r.path, r3);
    assert(b.skip((t1.len() + t2.len() + t3.len()) as int) =~= r3);
    lemma_parse_u64_complete(r.last_accessed, r4);
    assert(b.skip((t1.len() + t2.len() + t3.len() + 8) as int) =~= r4);
    lemma_parse_u64_complete(rank_bits(r.accessed), rest);
    lemma_rank_of_bits(r.accessed);
    assert(record_bytes(r).len() == t1.len() + t2.len() + t3.len() + 8 + 8);
}

/// What was read as a record is a valid record, and is what writing it gives.
pub proof fn lemma_record_sound(b: Seq<u8>)
    ensures
        parse_record(b) matches Some((r, n)) ==> n <= b.len() && valid_record(r) && b.take(
            n as int,
        ) == record_bytes(r),
{
    if let Some((r, n)) = parse_record(b) {
        let (remote, n1) = parse_text(b)->0;
        let b1 = b.skip(n1 as int);
        let (name, n2) = parse_text(b1)->0;
        let b2 = b.skip((n1 + n2) as int);
        let (path, n3) = parse_text(b2)->0;
        let b3 = b.skip((n1 + n2 + n3) as int);
        let (last, n4) = parse_u64(b3)->0;
        let b4 = b.skip((n1 + n2 + n3 + n4) as int);
        let (bits, n5) = parse_u64(b4)->0;
        lemma_parse_text_sound(b);
        lemma_parse_text_sound(b1);
        lemma_parse_text_sound(b2);
        lemma_parse_u64_sound(b3);
        lemma_parse_u64_sound(b4);
        assert(b.take(n as int) =~= b.take(n1 as int) + (b1.take(n2 as int) + (b2.take(
            n3 as int,
        ) + (b3.take(8) + b4.take(8)))));
    }
}

/// Whether a repository of the group `group` is cloned over ssh: always
/// where the remote says so, and else where the group is one of those that
/// the remote lists.
pub open spec fn clones_over_ssh(use_ssh: bool, ssh_groups: Seq<char>, group: Seq<char>) -> bool {
    use_ssh || (ssh_groups.len() > 0 && split_text(ssh_groups, ';').contains(group))
}

/// The address from which a repository is cloned: `git@domain:name.git`
/// over ssh, `https://domain/name.git` else.
pub open spec fn clone_address(ssh: bool, domain: Seq<char>, name: Seq<char>) -> Seq<char> {
    if ssh {
        "git@"@ + domain + ":"@ + name + ".git"@
    } else {
        "https://"@ + domain + "/"@ + name + ".git"@
    }
}

/// The directory of a record: the path of its own where it has one, and else
/// the remote and then the name joined to the workspace as paths.
pub open spec fn directory_of(r: RepoView, workspace: Seq<char>) -> Seq<char> {
    if r.path.len() > 0 {
        r.path
    } else {
        joined_path(joined_path(workspace, r.remote), r.name)
    }
}

/// What was found where the directory of a repository should be.
#[derive(Debug, Clone, Copy, PartialEq, Eq, Structural)]
pub enum Found {
    /// A directory that can be read.
    Directory,
    /// Nothing.
    Nothing,
    /// Something that cannot be read.
    Unreadable,
}

/// What is to be done so that the directory of a repository exists.
#[derive(Debug, PartialEq, Eq)]
pub enum Ensure {
    /// Nothing: the directory is there.
    Ready { path: String },
    /// The repository is to be cloned from `url` to `path`; where `user` is
    /// given, its name and email are to be set in the clone.
    Clone { url: String, path: String, user: Option<(String, String)> },
    /// The directory is to be created at `path` and made a repository; the
    /// steps of the remote for a new repository are to be taken in it.
    Create { path: String },
    /// The directory cannot be read.
    Fail { path: String },
}

impl Repo {
    /// The directory of the repository: the path of its own where it has
    /// one, and else the remote and the name under the workspace.
    pub fn path(&self, workspace: &str) -> (r: String)
        ensures
            r@ == directory_of(self@, workspace@),
    {
        if !self.path.as_str().is_empty() {
            self.path.clone()
        } else {
            let under_remote = join_path(workspace, self.remote.as_str());
            join_path(under_remote.as_str(), self.name.as_str())
        }
    }

    /// The address from which the repository is cloned.
    pub fn clone_url(&self, cfg: &crate::config::Clone) -> (r: String)
        ensures
            r@ == clone_address(
                clones_over_ssh(cfg.use_ssh, cfg.ssh_groups@, name_group(self.name@)),
                cfg.domain@,
                self.name@,
            ),
    {
        let name = chars_of(self.name.as_str());
        let mut ssh = cfg.use_ssh;
        let groups = chars_of(cfg.ssh_groups.as_str());
        if !ssh && groups.len() > 0 {
            let (group, _) = split_chars(&name);
            let listed = split_chars_on(&groups, ';');
            let ghost all = split_text(cfg.ssh_groups@, ';');
            let mut i: usize = 0;
            while i < listed.len() && !ssh
                invariant
                    i <= listed.len(),
                    all == listed@.map_values(|p: Vec<char>| p@),
                    group@ == name_group(self.name@),
                    ssh ==> all.contains(group@),
                    !ssh ==> forall|j: int| 0 <= j < i ==> all[j] != group@,
                decreases listed.len() - i,
            {
                if same_chars(&listed[i], &group) {
                    assert(all[i as int] == group@);
                    ssh = true;
                }
                i += 1;
            }
        }
        let domain = chars_of(cfg.domain.as_str());
        let mut out: Vec<char>;
        if ssh {
            out = chars_of("git@");
            append_chars(&mut out, &domain);
            append_chars(&mut out, &chars_of(":"));
        } else {
            out = chars_of("https://");
            append_chars(&mut out, &domain);
            append_chars(&mut out, &chars_of("/"));
        }
        append_chars(&mut out, &name);
        append_chars(&mut out, &chars_of(".git"));
        string_of(&out)
    }

    /// What is to be done so that the directory of the repository exists,
    /// for what was found in its place: nothing for a directory; for
    /// nothing, a clone where the remote says how to clone, and a new
    /// repository else.
    pub fn ensure_path(&self, workspace: &str, remote: &Remote, found: Found) -> (r: Ensure)
        ensures
            match r {
                Ensure::Ready { path } => found == Found::Directory,
                Ensure::Fail { path } => found == Found::Unreadable,
                Ensure::Clone { url, path, user } => {
                    &&& found == Found::Nothing
                    &&& remote.clone matches Some(cfg)
                    &&& url@ == clone_address(
                        clones_over_ssh(cfg.use_ssh, cfg.ssh_groups@, name_group(self.name@)),
                        cfg.domain@,
                        self.name@,
                    )
                    &&& match remote.user {
                        Some(who) => user matches Some(set) && set.0@ == who.name@ && set.1@
                            == who.email@,
                        None => user is None,
                    }
                },
                Ensure::Create { path } => found == Found::Nothing && remote.clone is None,
            },
            match r {
                Ensure::Ready { path } => path@ == directory_of(self@, workspace@),
                Ensure::Fail { path } => path@ == directory_of(self@, workspace@),
                Ensure::Clone { url, path, user } => path@ == directory_of(self@, workspace@),
                Ensure::Create { path } => path@ == directory_of(self@, workspace@),
            },
    {
        let path = self.path(workspace);
        match found {
            Found::Directory => Ensure::Ready { path },
            Found::Unreadable => Ensure::Fail { path },
            Found::Nothing => match &remote.clone {
                Some(cfg) => {
                    let url = self.clone_url(cfg);
                    let user = match &remote.user {
                        Some(who) => Some((who.name.clone(), who.email.clone())),
                        None => None,
                    };
                    Ensure::Clone { url, path, user }
                },
                None => Ensure::Create { path },
            },
        }
    }

    /// Appends the bytes of the record, where the file format can hold it.
    pub fn write_to(&self, out: &mut Vec<u8>) -> (done: bool)
        ensures
            done == (self.accessed <= MAX_RANK),
            done ==> valid_record(self@) && final(out)@ == old(out)@ + record_bytes(self@),
            !done ==> final(out)@ == old(out)@,
    {
        if self.accessed > MAX_RANK {
            return false;
        }
        let ghost before = out@;
        put_text(out, self.remote.as_str());
        put_text(out, self.name.as_str());
        put_text(out, self.path.as_str());
        put_u64(out, self.last_accessed);
        put_u64(out, rank_to_bits(self.accessed));
        proof {
            assert(out@ =~= before + record_bytes(self@));
        }
        true
    }

    /// Reads a record at `pos`: the record and the position after it.
    pub fn read_from(bytes: &[u8], pos: usize) -> (r: Option<(Repo, usize)>)
        requires
            pos <= bytes.len(),
        ensures
            match r {
                Some((repo, next)) => pos <= next <= bytes.len() && parse_record(
                    bytes@.skip(pos as int),
                ) == Some((repo@, (next - pos) as nat)),
                None => parse_record(bytes@.skip(pos as int)) is None,
            },
    {
        let ghost b = bytes@.skip(pos as int);
        let (remote, end_remote) = match read_text(bytes, pos) {
            Some(x) => x,
            None => { return None; },
        };
        proof {
            assert(b.skip(end_remote - pos) =~= bytes@.skip(end_remote as int));
        }
        let (name, end_name) = match read_text(bytes, end_remote) {
            Some(x) => x,
            None => { return None; },
        };
        proof {
            assert(b.skip((end_remote - pos) + (end_name - end_remote)) =~= bytes@.skip(
                end_name as int,
            ));
        }
        let (path, end_path) = match read_text(bytes, end_name) {
            Some(x) => x,
            None => { return None; },
        };
        proof {
            assert(b.skip((end_remote - pos) + (end_name - end_remote) + (end_path - end_name))
                =~= bytes@.skip(end_path as int));
        }
        let (last_accessed, end_used) = match read_u64(bytes, end_path) {
            Some(x) => x,
            None => { return None; },
        };
        proof {
            assert(b.skip(
                (end_remote - pos) + (end_name - end_remote) + (end_path - end_name) + (end_used
                    - end_path),
            ) =~= bytes@.skip(end_used as int));
        }
        let (bits, end_weight) = match read_u64(bytes, end_used) {
            Some(x) => x,
            None => { return None; },
        };
        match rank_from_bits(bits) {
            Some(accessed) => {
                proof {
                    lemma_rank_of_bits(accessed);
                }
                Some((Repo { remote, name, path, last_accessed, accessed }, end_weight))
            },
            None => None,
        }
    }

    /// The score at `now`, counted in quarters so that it stays whole: a
    /// record of weight 2 used half an hour ago scores 32 quarters, that is 8.
    pub fn score(&self, now: Epoch) -> (s: u128)
        ensures
            s == score_quarters(self@, now),
    {
        let duration: u64 = if now >= self.last_accessed {
            now - self.last_accessed
        } else {
            0
        };
        let weight: u128 = self.accessed as u128;
        if duration < HOUR {
            weight * 16
        } else if duration < DAY {
            weight * 8
        } else if duration < WEEK {
            weight * 2
        } else {
            weight
        }
    }

    /// A copy of the record.
    pub fn duplicate(&self) -> (r: Repo)
        ensures
            r@ == self@,
    {
        Repo {
            remote: self.remote.clone(),
            name: self.name.clone(),
            path: self.path.clone(),
            last_accessed: self.last_accessed,
            accessed: self.accessed,
        }
    }
}

} // verus!
