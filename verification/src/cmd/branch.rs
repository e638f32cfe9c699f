//! Working on branches.

use vstd::prelude::*;
use vstd::utf8::encode_utf8;
use crate::cmd::{line1, line2, line3, line4, lines, texts, Branch};
use crate::errors::{Error, ErrorView};
use crate::text::{append_chars, chars_of, same_chars, string_of};
use crate::util::git::{branch_views, BranchStatus, GitBranch, GitBranchView};

verus! {

/// The columns that `text` takes on the screen, as
/// `PadStr::pad_to_width_with_alignment` of the crate pad counts them.
pub uninterp spec fn columns(text: Seq<char>) -> nat;

/// A row of `n` blanks.
pub open spec fn blanks(n: nat) -> Seq<char> {
    Seq::new(n, |i: int| ' ')
}

/// `text` aligned to the left in `width` columns: with blanks after it up
/// to that width where it takes fewer columns, and as it is else.
pub open spec fn padded(text: Seq<char>, width: usize) -> Seq<char> {
    if columns(text) >= width {
        text
    } else {
        text + blanks((width - columns(text)) as nat)
    }
}

/// Calls `PadStr::pad_to_width_with_alignment` of the crate pad: `text`
/// aligned to the left in `width` columns. A text that takes the width or
/// more comes back as it is, and is never cut; a shorter one has a blank
/// after it for each column that it lacks.
#[verifier::external_body]
fn pad_to_width(text: &str, width: usize) -> (r: String)
    ensures
        r@ == if columns(text@) >= width {
            text@
        } else {
            text@ + blanks((width - columns(text@)) as nat)
        },
{
    pad::PadStr::pad_to_width_with_alignment(text, width, pad::Alignment::Left)
}

/// What the branch command is asked to do.
#[derive(Debug, PartialEq, Eq)]
pub enum BranchTask {
    /// Bring the branches in line with the remote.
    Sync,
    /// Show the branches.
    Show,
    /// Delete a branch.
    Delete,
    /// Check the branch out: create it first where `create` is set, and
    /// push it after where `push` is set.
    Checkout { name: String, create: bool, push: bool },
}

/// One step of bringing the branches in line with the remote.
#[derive(Debug, PartialEq, Eq)]
pub enum SyncBranchTask {
    /// Push or pull the branch: the operation, then the branch.
    Sync(String, String),
    /// Delete the branch.
    Delete(String),
}

/// The mathematical value of a step.
pub enum TaskView {
    Sync(Seq<char>, Seq<char>),
    Delete(Seq<char>),
}

impl View for SyncBranchTask {
    type V = TaskView;

    open spec fn view(&self) -> TaskView {
        match self {
            SyncBranchTask::Sync(op, branch) => TaskView::Sync(op@, branch@),
            SyncBranchTask::Delete(branch) => TaskView::Delete(branch@),
        }
    }
}

/// The steps held in a list, as values.
pub open spec fn task_views(tasks: Seq<SyncBranchTask>) -> Seq<TaskView> {
    tasks.map_values(|t: SyncBranchTask| t@)
}

/// The step that a branch asks for: a push where it is ahead, a pull where
/// it is behind, its deletion where its remote branch is gone and it is not
/// the default branch.
pub open spec fn task_of(branch: GitBranchView, default: Seq<char>) -> Option<TaskView> {
    match branch.status {
        BranchStatus::Ahead => Some(TaskView::Sync("push"@, branch.name)),
        BranchStatus::Behind => Some(TaskView::Sync("pull"@, branch.name)),
        BranchStatus::Gone => if branch.name == default {
            None
        } else {
            Some(TaskView::Delete(branch.name))
        },
        _ => None,
    }
}

/// The steps that the first `upto` branches ask for, in their order.
pub open spec fn sync_tasks(branches: Seq<GitBranchView>, default: Seq<char>, upto: int) -> Seq<
    TaskView,
>
    decreases upto,
{
    if upto <= 0 {
        Seq::empty()
    } else {
        match task_of(branches[upto - 1], default) {
            Some(task) => sync_tasks(branches, default, upto - 1).push(task),
            None => sync_tasks(branches, default, upto - 1),
        }
    }
}

/// The current branch among the first `upto`: the last that is marked so,
/// or none.
pub open spec fn sync_current(branches: Seq<GitBranchView>, upto: int) -> Seq<char>
    decreases upto,
{
    if upto <= 0 {
        Seq::empty()
    } else if branches[upto - 1].current {
        branches[upto - 1].name
    } else {
        sync_current(branches, upto - 1)
    }
}

/// The branch to be on in the end: the current one, unless its remote
/// branch is gone; the default branch else.
pub open spec fn sync_back(branches: Seq<GitBranchView>, default: Seq<char>, upto: int) -> Seq<
    char,
>
    decreases upto,
{
    if upto <= 0 {
        default
    } else if branches[upto - 1].current && branches[upto - 1].status != BranchStatus::Gone {
        branches[upto - 1].name
    } else {
        sync_back(branches, default, upto - 1)
    }
}

/// The branch that is checked out after a step was taken on `current`.
pub open spec fn current_after(task: TaskView, current: Seq<char>) -> Seq<char> {
    match task {
        TaskView::Sync(op, branch) => branch,
        TaskView::Delete(branch) => current,
    }
}

/// What a step asks git for when `current` is checked out: a branch is
/// checked out before it is pushed or pulled, and the default branch is
/// checked out before the current one is deleted.
pub open spec fn task_commands(task: TaskView, current: Seq<char>, default: Seq<char>) -> Seq<
    Seq<Seq<char>>,
> {
    match task {
        TaskView::Sync(op, branch) => if current != branch {
            seq![seq!["checkout"@, branch], seq![op]]
        } else {
            seq![seq![op]]
        },
        TaskView::Delete(branch) => if current == branch {
            seq![seq!["checkout"@, default], seq!["branch"@, "-D"@, branch]]
        } else {
            seq![seq!["branch"@, "-D"@, branch]]
        },
    }
}

/// What the steps from `from` on ask git for, and the checkout of `back` in
/// the end where another branch is checked out then.
pub open spec fn sync_commands(
    tasks: Seq<TaskView>,
    from: int,
    current: Seq<char>,
    default: Seq<char>,
    back: Seq<char>,
) -> Seq<Seq<Seq<char>>>
    decreases tasks.len() - from,
{
    if from < 0 || from >= tasks.len() {
        if current != back {
            seq![seq!["checkout"@, back]]
        } else {
            Seq::empty()
        }
    } else {
        task_commands(tasks[from], current, default) + sync_commands(
            tasks,
            from + 1,
            current_after(tasks[from], current),
            default,
            back,
        )
    }
}

/// The widest name among the first `upto` branches, in bytes.
pub open spec fn widest(branches: Seq<GitBranchView>, upto: int) -> usize
    decreases upto,
{
    if upto <= 0 {
        0
    } else {
        let own = encode_utf8(branches[upto - 1].name).len() as usize;
        if own > widest(branches, upto - 1) {
            own
        } else {
            widest(branches, upto - 1)
        }
    }
}

/// The lines that show the first `upto` branches: the name, and with `all`
/// the name in a column of `width` and the status after it.
pub open spec fn shown(branches: Seq<GitBranchView>, all: bool, width: usize, upto: int) -> Seq<
    Seq<char>,
>
    decreases upto,
{
    if upto <= 0 {
        Seq::empty()
    } else {
        let branch = branches[upto - 1];
        let line = if all {
            padded(branch.name, width) + " "@ + status_word(branch.status)
        } else {
            branch.name
        };
        shown(branches, all, width, upto - 1).push(line)
    }
}

/// The word that shows a status.
pub open spec fn status_word(status: BranchStatus) -> Seq<char> {
    match status {
        BranchStatus::Sync => "sync"@,
        BranchStatus::Gone => "gone"@,
        BranchStatus::Ahead => "ahead"@,
        BranchStatus::Behind => "behind"@,
        BranchStatus::Conflict => "conflict"@,
        BranchStatus::Detached => "detached"@,
    }
}

/// What bringing the branches in line asks for.
#[derive(Debug, PartialEq, Eq)]
pub struct SyncPlan {
    /// The branch to be on in the end.
    pub back: String,
    /// The steps, for showing.
    pub tasks: Vec<SyncBranchTask>,
    /// What git is asked for, in order.
    pub commands: Vec<Vec<String>>,
}

impl Branch {
    /// What the command is asked to do: the sync where it is asked for;
    /// else the showing where no branch is named; else the deletion where
    /// it is asked for; else the checkout of the branch.
    pub fn run(&self) -> (r: BranchTask)
        ensures
            match r {
                BranchTask::Sync => self.sync,
                BranchTask::Show => !self.sync && self.args.len() == 0,
                BranchTask::Delete => !self.sync && self.args.len() > 0 && self.delete,
                BranchTask::Checkout { name, create, push } => !self.sync && self.args.len() > 0
                    && !self.delete && name@ == self.args[0]@ && create == self.create && push
                    == self.push,
            },
    {
        if self.sync {
            BranchTask::Sync
        } else if self.args.len() == 0 {
            BranchTask::Show
        } else if self.delete {
            BranchTask::Delete
        } else {
            BranchTask::Checkout {
                name: self.args[0].clone(),
                create: self.create,
                push: self.push,
            }
        }
    }

    /// What checking a branch out asks git for.
    pub fn checkout(name: &str, create: bool, push: bool) -> (r: Vec<Vec<String>>)
        ensures
            lines(r@) == seq![
                if create {
                    seq!["checkout"@, "-b"@, name@]
                } else {
                    seq!["checkout"@, name@]
                },
            ] + if push {
                seq![seq!["push"@, "--set-upstream"@, "origin"@, name@]]
            } else {
                Seq::empty()
            },
    {
        let mut out: Vec<Vec<String>> = Vec::new();
        if create {
            out.push(line3("checkout", "-b", name));
        } else {
            out.push(line2("checkout", name));
        }
        let ghost first = lines(out@);
        proof {
            assert(first =~= seq![
                if create {
                    seq!["checkout"@, "-b"@, name@]
                } else {
                    seq!["checkout"@, name@]
                },
            ]);
        }
        if push {
            out.push(line4("push", "--set-upstream", "origin", name));
            proof {
                assert(lines(out@) =~= first + seq![
                    seq!["push"@, "--set-upstream"@, "origin"@, name@],
                ]);
            }
        } else {
            proof {
                assert(lines(out@) =~= first + Seq::<Seq<Seq<char>>>::empty());
            }
        }
        out
    }

    /// What fetching the branches asks git for.
    pub fn fetch() -> (r: Vec<String>)
        ensures
            texts(r@) == seq!["fetch"@, "--prune"@],
    {
        line2("fetch", "--prune")
    }

    /// The lines that show the branches: the names, and with `all` each name
    /// in a column as wide as the widest, with its status.
    pub fn show(&self, branches: &Vec<GitBranch>) -> (r: Vec<String>)
        ensures
            texts(r@) == shown(
                branch_views(branches@),
                self.all,
                widest(branch_views(branches@), branches.len() as int),
                branches.len() as int,
            ),
    {
        let ghost all = branch_views(branches@);
        let mut width: usize = 0;
        let mut i: usize = 0;
        while i < branches.len()
            invariant
                i <= branches.len(),
                all == branch_views(branches@),
                width == widest(all, i as int),
            decreases branches.len() - i,
        {
            let own = branches[i].name.as_str().as_bytes().len();
            if own > width {
                width = own;
            }
            i += 1;
        }
        let mut out: Vec<String> = Vec::new();
        let mut k: usize = 0;
        proof {
            assert(texts(out@) =~= shown(all, self.all, width, 0));
        }
        while k < branches.len()
            invariant
                k <= branches.len(),
                all == branch_views(branches@),
                texts(out@) == shown(all, self.all, width, k as int),
            decreases branches.len() - k,
        {
            let ghost before = texts(out@);
            let branch = &branches[k];
            if self.all {
                let mut line = chars_of(pad_to_width(branch.name.as_str(), width).as_str());
                append_chars(&mut line, &chars_of(" "));
                append_chars(&mut line, &chars_of(branch.status.display()));
                out.push(string_of(&line));
                proof {
                    assert(texts(out@) =~= before.push(
                        padded(all[k as int].name, width) + " "@ + status_word(
                            all[k as int].status,
                        ),
                    ));
                }
            } else {
                out.push(branch.name.clone());
                proof {
                    assert(texts(out@) =~= before.push(all[k as int].name));
                }
            }
            k += 1;
        }
        out
    }

    /// The position of the current branch, which is expected to exist: the
    /// first that is marked so.
    pub fn must_get_current_branch(branches: &Vec<GitBranch>) -> (r: Result<usize, Error>)
        ensures
            match r {
                Ok(i) => i < branches.len() && branches[i as int].current && forall|j: int|
                    0 <= j < i ==> !branches[j].current,
                Err(e) => e@ == ErrorView::Message("could not find current branch"@) && forall|
                    j: int,
                | 0 <= j < branches.len() ==> !branches[j].current,
            },
    {
        let mut i: usize = 0;
        while i < branches.len()
            invariant
                i <= branches.len(),
                forall|j: int| 0 <= j < i ==> !branches[j].current,
            decreases branches.len() - i,
        {
            if branches[i].current {
                return Ok(i);
            }
            i += 1;
        }
        Err(Error::Message("could not find current branch".to_owned()))
    }

    /// The position of the branch to delete: the one that is named, and the
    /// current one where none is.
    pub fn delete(&self, branches: &Vec<GitBranch>) -> (r: Result<usize, Error>)
        ensures
            match r {
                Ok(i) => i < branches.len() && if self.args.len() == 0 {
                    branches[i as int].current && forall|j: int|
                        0 <= j < i ==> !branches[j].current
                } else {
                    branches[i as int].name@ == self.args[0]@ && forall|j: int|
                        0 <= j < i ==> branches[j].name@ != self.args[0]@
                },
                Err(e) => if self.args.len() == 0 {
                    e@ == ErrorView::Message("could not find current branch"@) && forall|j: int|
                        0 <= j < branches.len() ==> !branches[j].current
                } else {
                    e@ == ErrorView::Message("could not find branch "@ + self.args[0]@)
                        && forall|j: int|
                        0 <= j < branches.len() ==> branches[j].name@ != self.args[0]@
                },
            },
    {
        if self.args.len() == 0 {
            return Branch::must_get_current_branch(branches);
        }
        let wanted = chars_of(self.args[0].as_str());
        let mut i: usize = 0;
        while i < branches.len()
            invariant
                i <= branches.len(),
                self.args.len() > 0,
                wanted@ == self.args[0]@,
                forall|j: int| 0 <= j < i ==> branches[j].name@ != self.args[0]@,
            decreases branches.len() - i,
        {
            if same_chars(&chars_of(branches[i].name.as_str()), &wanted) {
                return Ok(i);
            }
            i += 1;
        }
        let mut text = chars_of("could not find branch ");
        append_chars(&mut text, &wanted);
        Err(Error::Message(string_of(&text)))
    }

    /// What deleting `branch` asks git for. The current branch is left for
    /// the default branch first, and the default branch is not deleted.
    pub fn delete_commands(&self, branch: &GitBranch, default: &str) -> (r: Result<
        Vec<Vec<String>>,
        Error,
    >)
        ensures
            match r {
                Ok(commands) => !(branch.current && branch.name@ == default@) && lines(commands@)
                    == (if branch.current {
                    seq![seq!["checkout"@, default@]]
                } else {
                    Seq::empty()
                }) + seq![seq!["branch"@, "-D"@, branch.name@]] + (if self.push {
                    seq![seq!["push"@, "origin"@, "--delete"@, branch.name@]]
                } else {
                    Seq::empty()
                }),
                Err(e) => branch.current && branch.name@ == default@ && e@
                    == ErrorView::Message("could not delete default branch"@),
            },
    {
        let mut out: Vec<Vec<String>> = Vec::new();
        proof {
            assert(lines(out@) =~= Seq::<Seq<Seq<char>>>::empty());
        }
        if branch.current {
            if same_chars(&chars_of(branch.name.as_str()), &chars_of(default)) {
                return Err(Error::Message("could not delete default branch".to_owned()));
            }
            out.push(line2("checkout", default));
            proof {
                assert(lines(out@) =~= seq![seq!["checkout"@, default@]]);
            }
        }
        let ghost first = lines(out@);
        out.push(line3("branch", "-D", branch.name.as_str()));
        let ghost second = lines(out@);
        proof {
            assert(second =~= first + seq![seq!["branch"@, "-D"@, branch.name@]]);
        }
        if self.push {
            out.push(line4("push", "origin", "--delete", branch.name.as_str()));
            proof {
                assert(lines(out@) =~= second + seq![
                    seq!["push"@, "origin"@, "--delete"@, branch.name@],
                ]);
            }
        } else {
            proof {
                assert(lines(out@) =~= second + Seq::<Seq<Seq<char>>>::empty());
            }
        }
        Ok(out)
    }

    /// What bringing the branches in line with the remote asks for: each
    /// branch that is ahead is pushed, each that is behind is pulled, each
    /// whose remote branch is gone is deleted, the default branch aside; in
    /// the end the current branch is checked out again, or the default
    /// branch where the current one is gone.
    pub fn sync(branches: &Vec<GitBranch>, default: &str) -> (r: SyncPlan)
        ensures
            r.back@ == sync_back(branch_views(branches@), default@, branches.len() as int),
            task_views(r.tasks@) == sync_tasks(
                branch_views(branches@),
                default@,
                branches.len() as int,
            ),
            lines(r.commands@) == sync_commands(
                task_views(r.tasks@),
                0,
                sync_current(branch_views(branches@), branches.len() as int),
                default@,
                r.back@,
            ),
    {
        let ghost all = branch_views(branches@);
        let default_chars = chars_of(default);
        let mut back: Vec<char> = chars_of(default);
        let mut current: Vec<char> = Vec::new();
        let mut tasks: Vec<SyncBranchTask> = Vec::new();
        let mut i: usize = 0;
        proof {
            assert(task_views(tasks@) =~= sync_tasks(all, default@, 0));
            assert(current@ =~= sync_current(all, 0));
        }
        while i < branches.len()
            invariant
                i <= branches.len(),
                all == branch_views(branches@),
                default_chars@ == default@,
                back@ == sync_back(all, default@, i as int),
                current@ == sync_current(all, i as int),
                task_views(tasks@) == sync_tasks(all, default@, i as int),
            decreases branches.len() - i,
        {
            let branch = &branches[i];
            let name = chars_of(branch.name.as_str());
            let gone = match branch.status {
                BranchStatus::Gone => true,
                _ => false,
            };
            if branch.current {
                current = chars_of(branch.name.as_str());
                if !gone {
                    back = chars_of(branch.name.as_str());
                }
            }
            let ghost before = task_views(tasks@);
            match branch.status {
                BranchStatus::Ahead => {
                    tasks.push(SyncBranchTask::Sync("push".to_owned(), branch.name.clone()));
                    proof {
                        assert(task_views(tasks@) =~= before.push(
                            TaskView::Sync("push"@, all[i as int].name),
                        ));
                    }
                },
                BranchStatus::Behind => {
                    tasks.push(SyncBranchTask::Sync("pull".to_owned(), branch.name.clone()));
                    proof {
                        assert(task_views(tasks@) =~= before.push(
                            TaskView::Sync("pull"@, all[i as int].name),
                        ));
                    }
                },
                BranchStatus::Gone => {
                    if !same_chars(&name, &default_chars) {
                        tasks.push(SyncBranchTask::Delete(branch.name.clone()));
                        proof {
                            assert(task_views(tasks@) =~= before.push(
                                TaskView::Delete(all[i as int].name),
                            ));
                        }
                    }
                },
                _ => {},
            }
            i += 1;
        }
        let ghost steps = task_views(tasks@);
        let ghost first = current@;
        let mut commands: Vec<Vec<String>> = Vec::new();
        let mut k: usize = 0;
        proof {
            assert(lines(commands@) =~= Seq::<Seq<Seq<char>>>::empty());
            assert(lines(commands@) + sync_commands(steps, 0, first, default@, back@)
                =~= sync_commands(steps, 0, first, default@, back@));
        }
        while k < tasks.len()
            invariant
                k <= tasks.len(),
                steps == task_views(tasks@),
                default_chars@ == default@,
                sync_commands(steps, 0, first, default@, back@) == lines(commands@)
                    + sync_commands(steps, k as int, current@, default@, back@),
            decreases tasks.len() - k,
        {
            let ghost before = lines(commands@);
            let ghost was = current@;
            let ghost rest = sync_commands(
                steps,
                k + 1,
                current_after(steps[k as int], was),
                default@,
                back@,
            );
            match &tasks[k] {
                SyncBranchTask::Sync(op, branch) => {
                    let target = chars_of(branch.as_str());
                    if !same_chars(&current, &target) {
                        commands.push(line2("checkout", branch.as_str()));
                        commands.push(line1(op.as_str()));
                        proof {
                            assert(lines(commands@) =~= before + seq![
                                seq!["checkout"@, branch@],
                                seq![op@],
                            ]);
                        }
                    } else {
                        commands.push(line1(op.as_str()));
                        proof {
                            assert(lines(commands@) =~= before + seq![seq![op@]]);
                        }
                    }
                    current = target;
                },
                SyncBranchTask::Delete(branch) => {
                    if same_chars(&current, &chars_of(branch.as_str())) {
                        commands.push(line2("checkout", default));
                        commands.push(line3("branch", "-D", branch.as_str()));
                        proof {
                            assert(lines(commands@) =~= before + seq![
                                seq!["checkout"@, default@],
                                seq!["branch"@, "-D"@, branch@],
                            ]);
                        }
                    } else {
                        commands.push(line3("branch", "-D", branch.as_str()));
                        proof {
                            assert(lines(commands@) =~= before + seq![
                                seq!["branch"@, "-D"@, branch@],
                            ]);
                        }
                    }
                },
            }
            proof {
                assert(lines(commands@) =~= before + task_commands(steps[k as int], was, default@));
                assert(before + (task_commands(steps[k as int], was, default@) + rest)
                    =~= lines(commands@) + rest);
            }
            k += 1;
        }
        let ghost before = lines(commands@);
        if !same_chars(&current, &back) {
            let name = string_of(&back);
            commands.push(line2("checkout", name.as_str()));
            proof {
                assert(lines(commands@) =~= before + seq![seq!["checkout"@, back@]]);
            }
        } else {
            proof {
                assert(before + Seq::<Seq<Seq<char>>>::empty() =~= before);
            }
        }
        SyncPlan { back: string_of(&back), tasks, commands }
    }
}

} // verus!
