//! The directories of the workspace that hold nothing: what a walk over the
//! workspace found, and which directories can go.

use vstd::prelude::*;
use crate::text::{chars_of, same_chars, texts};
use crate::util::{paths_equal, same_path};

verus! {

/// A directory as a walk found it.
#[derive(Debug, PartialEq, Eq)]
pub struct EmptyDir {
    path: String,
    subs: Vec<EmptyDir>,
    empty: bool,
    keep: bool,
}

/// The mathematical value of a directory: its path, the directories in it
/// that were walked, whether it holds nothing, and whether it is to stay.
pub struct DirView {
    pub path: Seq<char>,
    pub subs: Seq<DirView>,
    pub empty: bool,
    pub keep: bool,
}

/// Whether every directory among the first `upto` holds nothing once they
/// are marked.
pub open spec fn all_empty(subs: Seq<DirView>, upto: int) -> bool
    decreases subs, upto,
{
    if upto <= 0 || upto > subs.len() {
        true
    } else {
        all_empty(subs, upto - 1) && marked(subs[upto - 1]).empty
    }
}

/// The first `upto` directories, each marked.
pub open spec fn marked_subs(subs: Seq<DirView>, upto: int) -> Seq<DirView>
    decreases subs, upto,
{
    if upto <= 0 || upto > subs.len() {
        Seq::empty()
    } else {
        marked_subs(subs, upto - 1).push(marked(subs[upto - 1]))
    }
}

/// A directory with the mark of emptiness carried up: a directory with
/// directories in it holds nothing only if it was found so and each of them
/// holds nothing.
pub open spec fn marked(dir: DirView) -> DirView
    decreases dir, 0int,
{
    if dir.subs.len() == 0 {
        dir
    } else {
        DirView {
            path: dir.path,
            subs: marked_subs(dir.subs, dir.subs.len() as int),
            empty: dir.empty && all_empty(dir.subs, dir.subs.len() as int),
            keep: dir.keep,
        }
    }
}

/// The paths that can go among the first `upto` directories.
pub open spec fn listed_subs(subs: Seq<DirView>, upto: int) -> Seq<Seq<char>>
    decreases subs, upto,
{
    if upto <= 0 || upto > subs.len() {
        Seq::empty()
    } else {
        listed_subs(subs, upto - 1) + listed(subs[upto - 1])
    }
}

/// The paths that can go: a directory that holds nothing and is not to stay
/// goes as a whole; else what can go of the directories in it.
pub open spec fn listed(dir: DirView) -> Seq<Seq<char>>
    decreases dir, 0int,
{
    if dir.empty && !dir.keep {
        seq![dir.path]
    } else {
        listed_subs(dir.subs, dir.subs.len() as int)
    }
}

/// The values of the directories held in a list.
pub open spec fn dir_views(subs: Seq<EmptyDir>, upto: int) -> Seq<DirView>
    decreases subs, upto,
{
    if upto <= 0 || upto > subs.len() {
        Seq::empty()
    } else {
        dir_views(subs, upto - 1).push(subs[upto - 1].tree())
    }
}

/// Whether `sub` is the same path as one of `paths`.
pub open spec fn excluded(paths: Seq<Seq<char>>, sub: Seq<char>) -> bool {
    exists|j: int| 0 <= j < paths.len() && same_path(#[trigger] paths[j], sub)
}

/// What the entry of a directory is to the walk.
#[derive(Debug, Clone, Copy, PartialEq, Eq, Structural)]
pub enum Entry {
    /// A directory to walk in turn.
    Walk,
    /// Something that makes the directory stay: a file, the directory of
    /// git, or the directory of a repository.
    Keep,
}

impl EmptyDir {
    /// The value of the directory.
    pub closed spec fn tree(&self) -> DirView
        decreases self, 0int,
    {
        DirView {
            path: self.path@,
            subs: dir_views(self.subs@, self.subs@.len() as int),
            empty: self.empty,
            keep: self.keep,
        }
    }

    /// The directory at `path` before it is walked: the root stays whatever
    /// it holds.
    pub fn new(path: String, root: bool) -> (r: EmptyDir)
        ensures
            r.tree() == (DirView { path: path@, subs: Seq::empty(), empty: false, keep: root }),
    {
        let r = EmptyDir { path, subs: Vec::new(), empty: false, keep: root };
        proof {
            assert(dir_views(r.subs@, 0) =~= Seq::<DirView>::empty());
        }
        r
    }

    /// The path of the directory.
    pub fn path(&self) -> (r: &str)
        ensures
            r@ == self.tree().path,
    {
        self.path.as_str()
    }

    /// What an entry of the directory is to the walk: a directory is walked
    /// in turn, unless it is the directory of git or the same path as one of
    /// `exclude`; all else makes the directory stay.
    pub fn walk(&mut self, name: &str, is_dir: bool, sub_path: &str, exclude: &Vec<String>) -> (r:
        Entry)
        ensures
            r == if is_dir && name@ != ".git"@ && !excluded(texts(exclude@), sub_path@) {
                Entry::Walk
            } else {
                Entry::Keep
            },
            final(self).tree() == if r == Entry::Keep {
                DirView { keep: true, ..old(self).tree() }
            } else {
                old(self).tree()
            },
    {
        let mut walk = is_dir && !same_chars(&chars_of(name), &chars_of(".git"));
        if walk {
            let ghost paths = texts(exclude@);
            let mut i: usize = 0;
            while i < exclude.len() && walk
                invariant
                    i <= exclude.len(),
                    paths == texts(exclude@),
                    walk ==> forall|j: int| 0 <= j < i ==> !same_path(paths[j], sub_path@),
                    !walk ==> excluded(paths, sub_path@),
                decreases exclude.len() - i,
            {
                if paths_equal(exclude[i].as_str(), sub_path) {
                    assert(same_path(paths[i as int], sub_path@));
                    walk = false;
                }
                i += 1;
            }
        }
        if walk {
            Entry::Walk
        } else {
            self.keep = true;
            Entry::Keep
        }
    }

    /// Takes in a directory of this one that was walked.
    pub fn attach(&mut self, sub: EmptyDir)
        ensures
            final(self).tree() == (DirView {
                subs: old(self).tree().subs.push(sub.tree()),
                ..old(self).tree()
            }),
    {
        let ghost before = self.subs@;
        self.subs.push(sub);
        proof {
            lemma_dir_views_prefix(self.subs@, before, before.len() as int);
        }
    }

    /// Ends the walk of the directory: it holds nothing where no directory
    /// in it was walked.
    pub fn close(&mut self)
        ensures
            final(self).tree() == if old(self).tree().subs.len() == 0 {
                DirView { empty: true, ..old(self).tree() }
            } else {
                old(self).tree()
            },
    {
        proof {
            lemma_dir_views_len(self.subs@, self.subs@.len() as int);
        }
        if self.subs.len() == 0 {
            self.empty = true;
        }
    }

    /// Carries the mark of emptiness up the tree.
    pub fn mark(self) -> (r: EmptyDir)
        ensures
            r.tree() == marked(self.tree()),
        decreases self,
    {
        proof {
            lemma_dir_views_len(self.subs@, self.subs@.len() as int);
        }
        if self.subs.len() == 0 {
            return self;
        }
        let ghost me = self;
        let ghost whole = self.tree();
        let ghost given = self.subs@;
        proof {
            assert forall|k: int| 0 <= k < given.len() implies decreases_to!(me => #[trigger] given[k]) by {
                assert(decreases_to!(me => me.subs));
                assert(decreases_to!(me.subs => me.subs[k]));
            }
        }
        let EmptyDir { path, subs, empty, keep } = self;
        let mut rest = subs;
        let mut back: Vec<EmptyDir> = Vec::new();
        let mut every = true;
        let n = rest.len();
        let ghost views = dir_views(given, n as int);
        proof {
            lemma_dir_views_len(given, n as int);
        }
        while rest.len() > 0
            invariant
                rest.len() <= n,
                n == given.len(),
                me == self,
                forall|k: int| 0 <= k < given.len() ==> decreases_to!(me => #[trigger] given[k]),
                rest@ == given.take(rest.len() as int),
                views == dir_views(given, n as int),
                views.len() == n,
                whole.subs == views,
                back.len() == n - rest.len(),
                forall|k: int|
                    0 <= k < back.len() ==> (#[trigger] back[k]).tree() == marked(
                        views[n - 1 - k],
                    ),
                every == (forall|k: int|
                    rest.len() <= k < n ==> (#[trigger] marked(views[k])).empty),
            decreases rest.len(),
        {
            let ghost at = rest.len() - 1;
            let sub = rest.pop().unwrap();
            proof {
                assert(sub == given[at]);
                lemma_dir_views_index(given, n as int, at);
                assert(rest@ =~= given.take(at));
            }
            let done = sub.mark();
            every = every && done.empty;
            back.push(done);
        }
        let mut marked_subs_vec: Vec<EmptyDir> = Vec::new();
        proof {
            assert(dir_views(marked_subs_vec@, 0) =~= marked_subs(views, 0));
        }
        while back.len() > 0
            invariant
                back.len() <= n,
                views.len() == n,
                marked_subs_vec.len() == n - back.len(),
                forall|k: int|
                    0 <= k < back.len() ==> (#[trigger] back[k]).tree() == marked(
                        views[n - 1 - k],
                    ),
                dir_views(marked_subs_vec@, marked_subs_vec.len() as int) == marked_subs(
                    views,
                    marked_subs_vec.len() as int,
                ),
            decreases back.len(),
        {
            let ghost before = marked_subs_vec@;
            let ghost top = back.len() - 1;
            let sub = back.pop().unwrap();
            proof {
                assert(sub.tree() == marked(views[n - 1 - top]));
            }
            marked_subs_vec.push(sub);
            proof {
                lemma_dir_views_prefix(marked_subs_vec@, before, before.len() as int);
            }
        }
        proof {
            lemma_all_empty(views, n as int);
        }
        EmptyDir { path, subs: marked_subs_vec, empty: empty && every, keep }
    }

    /// What a walk comes to: the tree with the mark of emptiness carried
    /// up, and the root made to stay.
    pub fn scan(root: EmptyDir) -> (r: EmptyDir)
        ensures
            r.tree() == (DirView { keep: true, ..marked(root.tree()) }),
    {
        let mut done = root.mark();
        done.keep = true;
        done
    }

    /// Appends the paths that can go to `list`.
    pub fn list(&self, list: &mut Vec<String>)
        ensures
            final(list)@.map_values(|p: String| p@) == old(list)@.map_values(|p: String| p@)
                + listed(self.tree()),
        decreases self,
    {
        let ghost before = list@.map_values(|p: String| p@);
        if self.empty && !self.keep {
            list.push(self.path.clone());
            proof {
                assert(list@.map_values(|p: String| p@) =~= before + seq![self.path@]);
            }
            return ;
        }
        let ghost views = dir_views(self.subs@, self.subs@.len() as int);
        proof {
            lemma_dir_views_len(self.subs@, self.subs@.len() as int);
            assert(before + listed_subs(views, 0) =~= before);
        }
        let mut i: usize = 0;
        while i < self.subs.len()
            invariant
                i <= self.subs.len(),
                views == dir_views(self.subs@, self.subs@.len() as int),
                views.len() == self.subs.len(),
                list@.map_values(|p: String| p@) == before + listed_subs(views, i as int),
            decreases self.subs.len() - i,
        {
            let ghost so_far = list@.map_values(|p: String| p@);
            proof {
                lemma_dir_views_index(self.subs@, self.subs@.len() as int, i as int);
            }
            self.subs[i].list(list);
            proof {
                assert(before + (listed_subs(views, i as int) + listed(views[i as int])) =~= so_far
                    + listed(views[i as int]));
            }
            i += 1;
        }
    }
}

/// A list of views is as long as what it views.
pub proof fn lemma_dir_views_len(subs: Seq<EmptyDir>, upto: int)
    requires
        0 <= upto <= subs.len(),
    ensures
        dir_views(subs, upto).len() == upto,
    decreases upto,
{
    if upto > 0 {
        lemma_dir_views_len(subs, upto - 1);
    }
}

/// Each view of a list is the view of the directory at its position.
pub proof fn lemma_dir_views_index(subs: Seq<EmptyDir>, upto: int, i: int)
    requires
        0 <= i < upto <= subs.len(),
    ensures
        dir_views(subs, upto).len() == upto,
        dir_views(subs, upto)[i] == subs[i].tree(),
    decreases upto,
{
    lemma_dir_views_len(subs, upto);
    lemma_dir_views_len(subs, upto - 1);
    if i < upto - 1 {
        lemma_dir_views_index(subs, upto - 1, i);
    }
}

/// The views of a list that grew by one directory are the views of the list
/// before, and the view of that directory.
pub proof fn lemma_dir_views_prefix(grown: Seq<EmptyDir>, before: Seq<EmptyDir>, upto: int)
    requires
        0 <= upto <= before.len(),
        grown.len() == before.len() + 1,
        forall|i: int| 0 <= i < before.len() ==> grown[i] == before[i],
    ensures
        dir_views(grown, upto) == dir_views(before, upto),
        upto == before.len() ==> dir_views(grown, grown.len() as int) == dir_views(
            before,
            before.len() as int,
        ).push(grown[before.len() as int].tree()),
    decreases upto,
{
    if upto > 0 {
        lemma_dir_views_prefix(grown, before, upto - 1);
    }
}

/// All of the first `upto` directories hold nothing once marked exactly
/// when each of them does.
pub proof fn lemma_all_empty(subs: Seq<DirView>, upto: int)
    requires
        0 <= upto <= subs.len(),
    ensures
        all_empty(subs, upto) == (forall|k: int|
            0 <= k < upto ==> (#[trigger] marked(subs[k])).empty),
        marked_subs(subs, upto).len() == upto,
    decreases upto,
{
    if upto > 0 {
        lemma_all_empty(subs, upto - 1);
        if all_empty(subs, upto) {
            assert forall|k: int| 0 <= k < upto implies (#[trigger] marked(subs[k])).empty by {
                if k < upto - 1 {
                    assert(marked(subs[k]).empty);
                }
            }
        } else if all_empty(subs, upto - 1) {
            assert(!marked(subs[upto - 1]).empty);
        } else {
            let k = choose|k: int| 0 <= k < upto - 1 && !(#[trigger] marked(subs[k])).empty;
            assert(!marked(subs[k]).empty);
        }
    }
}

} // verus!
