//! The configuration: the workspace, the remotes and the fixed keywords.

use vstd::prelude::*;
use crate::errors::{Error, ErrorView};
use crate::text::{chars_of, replace_chars, replace_text, same_chars, string_of};
use crate::util::{expand_env, is_plain};

verus! {

/// The configuration of the tool.
#[derive(Debug, PartialEq, Eq)]
pub struct Config {
    /// The directory under which repositories are laid out.
    pub workspace: String,
    /// The remotes, each a scope for repository names.
    pub remotes: Vec<Remote>,
    /// Fixed keywords, each with the repository it stands for. No keyword
    /// stands twice.
    pub keyword_map: Vec<(String, String)>,
    /// The rules by which a new tag is made of the latest one, each under
    /// its name.
    pub tag_rule: Vec<(String, String)>,
}

/// One remote.
#[derive(Debug, PartialEq, Eq)]
pub struct Remote {
    pub name: String,
    pub user: Option<User>,
    pub clone: Option<Clone>,
    pub api: Option<API>,
    /// What to do in a repository that was just created.
    pub on_create: Vec<Step>,
}

/// One step to take in a repository that was just created: a script to run,
/// a file to copy, or a file to write.
#[derive(Debug, PartialEq, Eq)]
pub struct Step {
    pub name: String,
    pub run: Option<String>,
    pub file: Option<String>,
    pub copy: Option<String>,
}

/// The git identity to set in repositories of a remote.
#[derive(Debug, PartialEq, Eq)]
pub struct User {
    pub name: String,
    pub email: String,
}

/// How repositories of a remote are cloned.
#[derive(Debug, PartialEq, Eq)]
pub struct Clone {
    pub domain: String,
    /// Whether every repository is cloned over ssh.
    pub use_ssh: bool,
    /// The groups whose repositories are cloned over ssh, separated by `;`.
    pub ssh_groups: String,
}

/// How the hosting service of a remote is reached.
#[derive(Debug, PartialEq, Eq)]
pub struct API {
    pub provider: Provider,
    pub token: String,
    pub url: String,
}

/// The hosting services that are known.
#[derive(Debug, PartialEq, Eq, Structural, Clone, Copy)]
pub enum Provider {
    Github,
    Gitlab,
}

/// The names of the remotes, in the order of the configuration.
pub open spec fn remote_names(remotes: Seq<Remote>) -> Seq<Seq<char>> {
    remotes.map_values(|r: Remote| r.name@)
}

/// The fixed keywords, in the order of the configuration.
pub open spec fn keyword_keys(map: Seq<(String, String)>) -> Seq<Seq<char>> {
    map.map_values(|e: (String, String)| e.0@)
}

/// The position of the first text of `names` at or after `from` that is
/// `name`.
pub open spec fn position_from(names: Seq<Seq<char>>, name: Seq<char>, from: int) -> Option<int>
    decreases names.len() - from,
{
    if from < 0 || from >= names.len() {
        None
    } else if names[from] == name {
        Some(from)
    } else {
        position_from(names, name, from + 1)
    }
}

/// The position of the first text of `names` that is `name`.
pub open spec fn position_of(names: Seq<Seq<char>>, name: Seq<char>) -> Option<int> {
    position_from(names, name, 0)
}

/// `position_from` finds `name` with no `name` before it, or finds none
/// where `names` does not hold it.
pub proof fn lemma_position_from(names: Seq<Seq<char>>, name: Seq<char>, from: int)
    requires
        0 <= from <= names.len(),
    ensures
        match position_from(names, name, from) {
            Some(i) => from <= i < names.len() && names[i] == name && forall|j: int|
                from <= j < i ==> names[j] != name,
            None => forall|j: int| from <= j < names.len() ==> names[j] != name,
        },
    decreases names.len() - from,
{
    if from < names.len() && names[from] != name {
        lemma_position_from(names, name, from + 1);
    }
}

/// The position `i` is the first of `name` where it holds `name` and none
/// before it does.
pub proof fn lemma_position_is(names: Seq<Seq<char>>, name: Seq<char>, i: int)
    requires
        0 <= i < names.len(),
        names[i] == name,
        forall|j: int| 0 <= j < i ==> names[j] != name,
    ensures
        position_of(names, name) == Some(i),
{
    lemma_position_from(names, name, 0);
}

/// No text of `names` stands twice.
pub open spec fn distinct(names: Seq<Seq<char>>) -> bool {
    forall|i: int, j: int| 0 <= i < j < names.len() ==> names[i] != names[j]
}

/// The position of the first text of `names` that stood before.
pub open spec fn first_repeat(names: Seq<Seq<char>>, from: int) -> Option<int>
    decreases names.len() - from,
{
    if from < 0 || from >= names.len() {
        None
    } else if names.take(from).contains(names[from]) {
        Some(from)
    } else {
        first_repeat(names, from + 1)
    }
}

/// Where `first_repeat` finds nothing from the start, no text stands twice.
pub proof fn lemma_first_repeat(names: Seq<Seq<char>>, from: int)
    requires
        0 <= from <= names.len(),
    ensures
        match first_repeat(names, from) {
            Some(i) => from <= i < names.len() && names.take(i).contains(names[i]),
            None => forall|j: int|
                from <= j < names.len() ==> !names.take(j).contains(#[trigger] names[j]),
        },
        from == 0 && first_repeat(names, from) is None ==> distinct(names),
    decreases names.len() - from,
{
    if from < names.len() && !names.take(from).contains(names[from]) {
        lemma_first_repeat(names, from + 1);
    }
    if from == 0 && first_repeat(names, from) is None {
        assert forall|i: int, j: int| 0 <= i < j < names.len() implies names[i] != names[j] by {
            if names[i] == names[j] {
                assert(names.take(j)[i] == names[j]);
                assert(!names.take(j).contains(names[j]));
            }
        }
    }
}

/// What a remote holds after its token was expanded: all that it held, but
/// for the token, which is what it was where it asked for no expansion.
pub open spec fn expanded_remote(before: Remote, after: Remote) -> bool {
    &&& after.name == before.name
    &&& after.user == before.user
    &&& after.clone == before.clone
    &&& after.on_create == before.on_create
    &&& match before.api {
        None => after.api is None,
        Some(api) => after.api matches Some(now) && now.provider == api.provider && now.url
            == api.url && (is_plain(api.token@) ==> now.token@ == api.token@),
    }
}

/// What the remotes hold after their tokens were expanded, one by one.
pub open spec fn expanded_remotes(before: Seq<Remote>, after: Seq<Remote>) -> bool {
    &&& after.len() == before.len()
    &&& forall|k: int| 0 <= k < before.len() ==> expanded_remote(before[k], #[trigger] after[k])
}

/// Whether no text of the configuration asks for an expansion: neither the
/// workspace nor the token of a remote.
pub open spec fn asks_no_expansion(workspace: Seq<char>, remotes: Seq<Remote>) -> bool {
    &&& is_plain(workspace)
    &&& forall|k: int|
        0 <= k < remotes.len() ==> ((#[trigger] remotes[k]).api matches Some(api) ==> is_plain(
            api.token@,
        ))
}

/// An empty text.
pub fn empty_string() -> (r: String)
    ensures
        r@.len() == 0,
{
    String::new()
}

/// An empty list.
pub fn empty_vec<T>() -> (r: Vec<T>)
    ensures
        r@.len() == 0,
{
    Vec::new()
}

/// An empty keyword map.
pub fn empty_map() -> (r: Vec<(String, String)>)
    ensures
        r@.len() == 0,
{
    Vec::new()
}

/// The default of a switch: off.
pub fn default_bool() -> (r: bool)
    ensures
        !r,
{
    false
}

/// The configuration that stands in where no file was written yet: the
/// workspace `${HOME}/dev`, no remote and no keyword.
pub fn default_config() -> (r: Config)
    ensures
        r.workspace@ == "${HOME}/dev"@,
        r.remotes@.len() == 0,
        r.keyword_map@.len() == 0,
        r.tag_rule@.len() == 0,
{
    Config {
        workspace: "${HOME}/dev".to_owned(),
        keyword_map: empty_map(),
        tag_rule: empty_map(),
        remotes: Vec::new(),
    }
}

impl Config {
    /// The position of the first remote of this name.
    pub fn remote_position(&self, name: &str) -> (r: Option<usize>)
        ensures
            match r {
                Some(i) => position_of(remote_names(self.remotes@), name@) == Some(i as int),
                None => position_of(remote_names(self.remotes@), name@) is None,
            },
            r matches Some(i) ==> i < self.remotes.len() && self.remotes[i as int].name@ == name@,
    {
        let wanted = chars_of(name);
        let ghost names = remote_names(self.remotes@);
        let mut i: usize = 0;
        while i < self.remotes.len()
            invariant
                i <= self.remotes.len(),
                wanted@ == name@,
                names == remote_names(self.remotes@),
                forall|j: int| 0 <= j < i ==> names[j] != name@,
            decreases self.remotes.len() - i,
        {
            if same_chars(&chars_of(self.remotes[i].name.as_str()), &wanted) {
                proof {
                    lemma_position_is(names, name@, i as int);
                }
                return Some(i);
            }
            i += 1;
        }
        proof {
            lemma_position_from(names, name@, 0);
        }
        None
    }

    /// The first remote of this name.
    pub fn get_remote<'a>(&'a self, name: &str) -> (r: Option<&'a Remote>)
        ensures
            match r {
                Some(remote) => position_of(remote_names(self.remotes@), name@) matches Some(i)
                    && *remote == self.remotes[i],
                None => position_of(remote_names(self.remotes@), name@) is None,
            },
    {
        match self.remote_position(name) {
            Some(i) => Some(&self.remotes[i]),
            None => None,
        }
    }

    /// The first remote of this name, which is expected to exist.
    pub fn must_get_remote<'a>(&'a self, name: &str) -> (r: Result<&'a Remote, Error>)
        ensures
            match r {
                Ok(remote) => position_of(remote_names(self.remotes@), name@) matches Some(i)
                    && *remote == self.remotes[i],
                Err(e) => e@ == crate::errors::ErrorView::UnknownRemote(name@) && position_of(
                    remote_names(self.remotes@),
                    name@,
                ) is None,
            },
    {
        match self.get_remote(name) {
            Some(remote) => Ok(remote),
            None => Err(Error::UnknownRemote(name.to_owned())),
        }
    }

    /// Whether `keyword` is one of the fixed keywords.
    pub fn has_keyword(&self, keyword: &str) -> (r: bool)
        ensures
            r == keyword_keys(self.keyword_map@).contains(keyword@),
    {
        let wanted = chars_of(keyword);
        let ghost keys = keyword_keys(self.keyword_map@);
        let mut i: usize = 0;
        while i < self.keyword_map.len()
            invariant
                i <= self.keyword_map.len(),
                wanted@ == keyword@,
                keys == keyword_keys(self.keyword_map@),
                forall|j: int| 0 <= j < i ==> keys[j] != keyword@,
            decreases self.keyword_map.len() - i,
        {
            if same_chars(&chars_of(self.keyword_map[i].0.as_str()), &wanted) {
                assert(keys[i as int] == keyword@);
                return true;
            }
            i += 1;
        }
        false
    }

    /// The rule of this name: the first one, where several have the name.
    pub fn get_rule<'a>(&'a self, name: &str) -> (r: Option<&'a String>)
        ensures
            match r {
                Some(rule) => position_of(keyword_keys(self.tag_rule@), name@) matches Some(i)
                    && *rule == self.tag_rule[i].1,
                None => position_of(keyword_keys(self.tag_rule@), name@) is None,
            },
    {
        let wanted = chars_of(name);
        let ghost keys = keyword_keys(self.tag_rule@);
        let mut i: usize = 0;
        while i < self.tag_rule.len()
            invariant
                i <= self.tag_rule.len(),
                wanted@ == name@,
                keys == keyword_keys(self.tag_rule@),
                forall|j: int| 0 <= j < i ==> keys[j] != name@,
            decreases self.tag_rule.len() - i,
        {
            if same_chars(&chars_of(self.tag_rule[i].0.as_str()), &wanted) {
                proof {
                    lemma_position_is(keys, name@, i as int);
                }
                return Some(&self.tag_rule[i].1);
            }
            i += 1;
        }
        proof {
            lemma_position_from(keys, name@, 0);
        }
        None
    }

    /// Whether an earlier remote has the name of the remote at `i`.
    pub fn is_repeat(&self, i: usize) -> (r: bool)
        requires
            i < self.remotes.len(),
        ensures
            r == remote_names(self.remotes@).take(i as int).contains(
                remote_names(self.remotes@)[i as int],
            ),
    {
        let ghost names = remote_names(self.remotes@);
        let own = chars_of(self.remotes[i].name.as_str());
        let mut j: usize = 0;
        let mut seen = false;
        while j < i
            invariant
                j <= i < self.remotes.len(),
                names == remote_names(self.remotes@),
                own@ == names[i as int],
                seen == names.take(j as int).contains(names[i as int]),
            decreases i - j,
        {
            let same = same_chars(&chars_of(self.remotes[j].name.as_str()), &own);
            proof {
                let before = names.take(j as int);
                let grown = names.take(j + 1);
                assert(grown =~= before.push(names[j as int]));
                if before.contains(names[i as int]) {
                    let k = choose|k: int| 0 <= k < before.len() && before[k] == names[i as int];
                    assert(grown[k] == names[i as int]);
                }
                if same {
                    assert(grown[j as int] == names[i as int]);
                }
                if grown.contains(names[i as int]) && !same {
                    let k = choose|k: int| 0 <= k < grown.len() && grown[k] == names[i as int];
                    assert(before[k] == names[i as int]);
                }
            }
            seen = seen || same;
            j += 1;
        }
        seen
    }

    /// The position of the first remote whose name an earlier remote has.
    pub fn duplicate_remote(&self) -> (r: Option<usize>)
        ensures
            match r {
                Some(i) => first_repeat(remote_names(self.remotes@), 0) == Some(i as int) && i
                    < self.remotes.len(),
                None => first_repeat(remote_names(self.remotes@), 0) is None && distinct(
                    remote_names(self.remotes@),
                ),
            },
    {
        let ghost names = remote_names(self.remotes@);
        let mut i: usize = 0;
        while i < self.remotes.len()
            invariant
                i <= self.remotes.len(),
                names == remote_names(self.remotes@),
                first_repeat(names, 0) == first_repeat(names, i as int),
            decreases self.remotes.len() - i,
        {
            if self.is_repeat(i) {
                return Some(i);
            }
            i += 1;
        }
        proof {
            lemma_first_repeat(names, 0);
        }
        None
    }

    /// Makes the configuration ready for use: the variables of the
    /// workspace and of each token are expanded, and two remotes of one name
    /// are refused. A text that asks for no expansion stays as it is; what
    /// another expands to depends on the environment. All else stays as it
    /// is. Where no text asks for an expansion, only two remotes of one name
    /// fail.
    pub fn normalize(&mut self) -> (r: Result<(), Error>)
        ensures
            remote_names(final(self).remotes@) == remote_names(old(self).remotes@),
            final(self).keyword_map == old(self).keyword_map,
            final(self).tag_rule == old(self).tag_rule,
            is_plain(old(self).workspace@) ==> final(self).workspace@ == old(self).workspace@,
            expanded_remotes(old(self).remotes@, final(self).remotes@),
            r is Ok ==> distinct(remote_names(old(self).remotes@)),
            first_repeat(remote_names(old(self).remotes@), 0) is Some ==> r is Err,
            asks_no_expansion(old(self).workspace@, old(self).remotes@) && first_repeat(
                remote_names(old(self).remotes@),
                0,
            ) is None ==> r is Ok,
            r matches Err(e) ==> match e@ {
                ErrorView::Expansion(text) => !is_plain(text) && !asks_no_expansion(
                    old(self).workspace@,
                    old(self).remotes@,
                ),
                ErrorView::DuplicateRemote(name) => first_repeat(
                    remote_names(old(self).remotes@),
                    0,
                ) matches Some(i) && name == remote_names(old(self).remotes@)[i],
                _ => false,
            },
    {
        let ghost names = remote_names(self.remotes@);
        let ghost given = self.remotes@;
        match expand_env(self.workspace.as_str()) {
            Ok(workspace) => {
                self.workspace = workspace;
            },
            Err(e) => {
                return Err(e);
            },
        }
        let mut i: usize = 0;
        while i < self.remotes.len()
            invariant
                i <= self.remotes.len(),
                given == old(self).remotes@,
                self.remotes@.len() == given.len(),
                names == remote_names(self.remotes@),
                names == remote_names(given),
                self.keyword_map == old(self).keyword_map,
                self.tag_rule == old(self).tag_rule,
                is_plain(old(self).workspace@) ==> self.workspace@ == old(self).workspace@,
                first_repeat(names, 0) == first_repeat(names, i as int),
                forall|k: int| 0 <= k < given.len() ==> expanded_remote(given[k], self.remotes@[k]),
                forall|k: int| i <= k < given.len() ==> self.remotes@[k] == given[k],
            decreases self.remotes.len() - i,
        {
            if self.is_repeat(i) {
                return Err(Error::DuplicateRemote(self.remotes[i].name.clone()));
            }
            let ghost held = self.remotes@;
            let mut remote = self.remotes.remove(i);
            let mut failure: Option<Error> = None;
            match remote.api {
                Some(api) => match expand_env(api.token.as_str()) {
                    Ok(token) => {
                        remote.api = Some(API { provider: api.provider, token, url: api.url });
                    },
                    Err(e) => {
                        remote.api = Some(api);
                        failure = Some(e);
                    },
                },
                None => {
                    remote.api = None;
                },
            }
            self.remotes.insert(i, remote);
            proof {
                assert(self.remotes@ =~= held.update(i as int, remote));
                assert(expanded_remote(given[i as int], remote));
                assert(remote_names(self.remotes@) =~= names);
                assert forall|k: int| 0 <= k < given.len() implies expanded_remote(
                    given[k],
                    self.remotes@[k],
                ) by {
                    if k != i {
                        assert(self.remotes@[k] == held[k]);
                    }
                }
            }
            if let Some(e) = failure {
                proof {
                    assert(given[i as int].api is Some);
                    assert(!is_plain(given[i as int].api->0.token@));
                }
                return Err(e);
            }
            i += 1;
        }
        proof {
            lemma_first_repeat(names, 0);
        }
        Ok(())
    }

    /// The configuration that was read, made ready for use.
    pub fn parse(config: Config) -> (r: Result<Config, Error>)
        ensures
            r matches Ok(ready) ==> {
                &&& distinct(remote_names(config.remotes@))
                &&& remote_names(ready.remotes@) == remote_names(config.remotes@)
                &&& ready.keyword_map == config.keyword_map
                &&& ready.tag_rule == config.tag_rule
                &&& is_plain(config.workspace@) ==> ready.workspace@ == config.workspace@
                &&& expanded_remotes(config.remotes@, ready.remotes@)
            },
            first_repeat(remote_names(config.remotes@), 0) is Some ==> r is Err,
            asks_no_expansion(config.workspace@, config.remotes@) && first_repeat(
                remote_names(config.remotes@),
                0,
            ) is None ==> r is Ok,
            r matches Err(e) ==> match e@ {
                ErrorView::Expansion(text) => !is_plain(text) && !asks_no_expansion(
                    config.workspace@,
                    config.remotes@,
                ),
                ErrorView::DuplicateRemote(name) => first_repeat(
                    remote_names(config.remotes@),
                    0,
                ) matches Some(i) && name == remote_names(config.remotes@)[i],
                _ => false,
            },
    {
        let mut config = config;
        match config.normalize() {
            Ok(()) => Ok(config),
            Err(e) => Err(e),
        }
    }
}

/// What a step for a new repository asks for.
#[derive(Debug, PartialEq, Eq)]
pub enum StepAction {
    /// Run the script in the repository.
    Run { script: String },
    /// Copy the file at `from` to `name` in the repository.
    Copy { name: String, from: String },
    /// Write `content` to `name` in the repository.
    Write { name: String, content: String },
}

impl Step {
    /// What the step asks for: its script on one line, the line breaks made
    /// semicolons, where it has a script; else the copy of a file, where it
    /// names one, the variables of the name expanded; else the writing of
    /// its content, with each `\t` made a tab.
    pub fn exec(&self) -> (r: Result<StepAction, Error>)
        ensures
            match r {
                Ok(StepAction::Run { script }) => (self.run matches Some(run) && script@
                    == replace_text(run@, "\n"@, ";"@)),
                Ok(StepAction::Copy { name, from }) => self.run is None && name@ == self.name@
                    && (self.copy matches Some(given) && (is_plain(given@) ==> from@
                    == given@)),
                Ok(StepAction::Write { name, content }) => self.run is None && self.copy is None
                    && name@ == self.name@ && content@ == replace_text(
                    match self.file {
                        Some(text) => text@,
                        None => Seq::empty(),
                    },
                    "\\t"@,
                    "\t"@,
                ),
                Err(e) => self.run is None && (self.copy matches Some(from) && e@
                    == ErrorView::Expansion(from@) && !is_plain(from@)),
            },
    {
        if let Some(run) = &self.run {
            let script = replace_chars(&chars_of(run.as_str()), &chars_of("\n"), &chars_of(";"));
            return Ok(StepAction::Run { script: string_of(&script) });
        }
        if let Some(copy) = &self.copy {
            return match expand_env(copy.as_str()) {
                Ok(from) => Ok(StepAction::Copy { name: self.name.clone(), from }),
                Err(e) => Err(e),
            };
        }
        let text: Vec<char> = match &self.file {
            Some(text) => chars_of(text.as_str()),
            None => Vec::new(),
        };
        let content = replace_chars(&text, &chars_of("\\t"), &chars_of("\t"));
        Ok(StepAction::Write { name: self.name.clone(), content: string_of(&content) })
    }
}

} // verus!
