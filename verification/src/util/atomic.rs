//! Replacing a file so that it is never seen half written: the new contents
//! go to a temporary file beside the target, which takes the target's place
//! in one step. The steps that touch the disk are the caller's; which step
//! comes next is decided here.

use vstd::prelude::*;
use crate::text::{append_chars, string_of};

verus! {

/// How often a temporary file is tried to be created.
pub const MAX_CREATE_ATTEMPTS: usize = 5;

/// The length of the name of a temporary file.
pub const TMP_NAME_LEN: usize = 16;

/// How often a rename that was denied is tried again where a file may be
/// locked for a moment, as on Windows.
pub const MAX_RENAME_RETRIES_LOCKING: usize = 5;

/// How often a rename that was denied is tried again elsewhere.
pub const MAX_RENAME_RETRIES: usize = 1;

/// Whether `c` is a letter of the Latin alphabet or a digit.
pub open spec fn is_alphanumeric(c: char) -> bool {
    'a' <= c <= 'z' || 'A' <= c <= 'Z' || '0' <= c <= '9'
}

/// Whether `name` can name a temporary file: `tmp_` and twelve letters or
/// digits.
pub open spec fn is_tmp_name(name: Seq<char>) -> bool {
    &&& name.len() == TMP_NAME_LEN
    &&& name.subrange(0, 4) == seq!['t', 'm', 'p', '_']
    &&& forall|i: int| 4 <= i < name.len() ==> is_alphanumeric(#[trigger] name[i])
}

/// Calls `fastrand::alphanumeric`: a letter of the Latin alphabet or a
/// digit, drawn at random.
#[verifier::external_body]
fn random_alphanumeric() -> (c: char)
    ensures
        is_alphanumeric(c),
{
    fastrand::alphanumeric()
}

/// The name of a temporary file for the characters that were drawn: `tmp_`
/// and the twelve characters, in the order in which they were drawn.
pub fn tmp_name_of(drawn: &Vec<char>) -> (name: String)
    requires
        drawn@.len() == TMP_NAME_LEN - 4,
        forall|i: int| 0 <= i < drawn@.len() ==> is_alphanumeric(#[trigger] drawn@[i]),
    ensures
        name@ == seq!['t', 'm', 'p', '_'] + drawn@,
        is_tmp_name(name@),
{
    let mut chars: Vec<char> = Vec::new();
    chars.push('t');
    chars.push('m');
    chars.push('p');
    chars.push('_');
    append_chars(&mut chars, drawn);
    proof {
        let prefix = seq!['t', 'm', 'p', '_'];
        assert(chars@ =~= prefix + drawn@);
        assert(chars@.subrange(0, 4) =~= prefix);
        assert forall|i: int| 4 <= i < chars@.len() implies is_alphanumeric(
            #[trigger] chars@[i],
        ) by {
            assert(chars@[i] == drawn@[i - 4]);
        }
    }
    string_of(&chars)
}

/// A name for a temporary file, drawn at random: what `tmp_name_of` makes
/// of twelve characters, each drawn for itself.
pub fn tmp_name() -> (name: String)
    ensures
        is_tmp_name(name@),
{
    let mut drawn: Vec<char> = Vec::new();
    while drawn.len() < TMP_NAME_LEN - 4
        invariant
            drawn.len() <= TMP_NAME_LEN - 4,
            forall|i: int| 0 <= i < drawn.len() ==> is_alphanumeric(#[trigger] drawn[i]),
        decreases TMP_NAME_LEN - 4 - drawn.len(),
    {
        drawn.push(random_alphanumeric());
    }
    tmp_name_of(&drawn)
}

/// Where an atomic write stands.
#[derive(Debug, Clone, Copy, PartialEq, Eq, Structural)]
pub enum WriteState {
    /// A temporary file is to be created; `attempts` were made.
    Creating { attempts: usize },
    /// The temporary file exists and is to be filled.
    Writing,
    /// The temporary file is full and is to take the target's place;
    /// `retries` renames were denied.
    Renaming { retries: usize },
    /// The write failed and the temporary file is to be removed.
    Removing,
    /// The target holds the new contents.
    Done,
    /// The write failed; the target holds what it held.
    Failed,
}

/// What the disk answered to the last step.
#[derive(Debug, Clone, Copy, PartialEq, Eq, Structural)]
pub enum WriteEvent {
    /// The temporary file was created.
    Created,
    /// A file of the chosen name exists already.
    Exists,
    /// The temporary file could not be created for another reason.
    CreateFailed,
    /// The contents were written to the temporary file.
    Written,
    /// The contents could not be written.
    WriteFailed,
    /// The temporary file took the target's place.
    Renamed,
    /// The rename was denied.
    Denied,
    /// The rename failed for another reason.
    RenameFailed,
    /// The temporary file was removed, or could not be.
    Removed,
}

/// The step to take next.
#[derive(Debug, Clone, Copy, PartialEq, Eq, Structural)]
pub enum WriteAction {
    /// Create a temporary file of a new name beside the target, failing
    /// where the name is taken.
    Create,
    /// Write the contents to the temporary file and close it.
    Fill,
    /// Rename the temporary file to the target.
    Rename,
    /// Remove the temporary file.
    Remove,
    /// Nothing: the write is over.
    Stop,
}

/// The most renames that are tried again after a denial.
pub open spec fn rename_retries(locking: bool) -> usize {
    if locking {
        MAX_RENAME_RETRIES_LOCKING
    } else {
        MAX_RENAME_RETRIES
    }
}

/// The state that follows `state` on `event`.
///
/// A name that is taken is answered by a new name, up to
/// `MAX_CREATE_ATTEMPTS` attempts in all. A rename that was denied is tried
/// again, up to `rename_retries` times. Every failure after the temporary
/// file was created leads to its removal. An event that the state does not
/// wait for ends the write as failed.
pub open spec fn next_state(state: WriteState, event: WriteEvent, locking: bool) -> WriteState {
    match (state, event) {
        (WriteState::Creating { attempts }, WriteEvent::Created) => WriteState::Writing,
        (WriteState::Creating { attempts }, WriteEvent::Exists) => if attempts
            < MAX_CREATE_ATTEMPTS {
            WriteState::Creating { attempts: (attempts + 1) as usize }
        } else {
            WriteState::Failed
        },
        (WriteState::Writing, WriteEvent::Written) => WriteState::Renaming { retries: 0 },
        (WriteState::Writing, WriteEvent::WriteFailed) => WriteState::Removing,
        (WriteState::Renaming { retries }, WriteEvent::Renamed) => WriteState::Done,
        (WriteState::Renaming { retries }, WriteEvent::Denied) => if retries < rename_retries(
            locking,
        ) {
            WriteState::Renaming { retries: (retries + 1) as usize }
        } else {
            WriteState::Removing
        },
        (WriteState::Renaming { retries }, WriteEvent::RenameFailed) => WriteState::Removing,
        (WriteState::Done, _) => WriteState::Done,
        _ => WriteState::Failed,
    }
}

/// The step that a state asks for.
pub open spec fn action_of(state: WriteState) -> WriteAction {
    match state {
        WriteState::Creating { attempts } => WriteAction::Create,
        WriteState::Writing => WriteAction::Fill,
        WriteState::Renaming { retries } => WriteAction::Rename,
        WriteState::Removing => WriteAction::Remove,
        WriteState::Done => WriteAction::Stop,
        WriteState::Failed => WriteAction::Stop,
    }
}

/// Whether a state is one that a write passes through: its counters are
/// within their bounds.
pub open spec fn valid_state(state: WriteState, locking: bool) -> bool {
    match state {
        WriteState::Creating { attempts } => 1 <= attempts <= MAX_CREATE_ATTEMPTS,
        WriteState::Renaming { retries } => retries <= rename_retries(locking),
        _ => true,
    }
}

/// Whether the target may hold the new contents in this state: only once
/// the rename was done.
pub open spec fn target_replaced(state: WriteState) -> bool {
    state == WriteState::Done
}

/// The state in which a write begins, and its first step: the first attempt
/// to create a temporary file.
pub fn begin() -> (r: (WriteState, WriteAction))
    ensures
        r.0 == (WriteState::Creating { attempts: 1 }),
        r.1 == WriteAction::Create,
{
    (WriteState::Creating { attempts: 1 }, WriteAction::Create)
}

/// The state that follows `state` on `event`, and the step to take in it.
pub fn advance(state: WriteState, event: WriteEvent, locking: bool) -> (r: (
    WriteState,
    WriteAction,
))
    ensures
        r.0 == next_state(state, event, locking),
        r.1 == action_of(r.0),
        valid_state(state, locking) ==> valid_state(r.0, locking),
{
    let retries: usize = if locking {
        MAX_RENAME_RETRIES_LOCKING
    } else {
        MAX_RENAME_RETRIES
    };
    let next = match state {
        WriteState::Creating { attempts } => match event {
            WriteEvent::Created => WriteState::Writing,
            WriteEvent::Exists => if attempts < MAX_CREATE_ATTEMPTS {
                WriteState::Creating { attempts: attempts + 1 }
            } else {
                WriteState::Failed
            },
            _ => WriteState::Failed,
        },
        WriteState::Writing => match event {
            WriteEvent::Written => WriteState::Renaming { retries: 0 },
            WriteEvent::WriteFailed => WriteState::Removing,
            _ => WriteState::Failed,
        },
        WriteState::Renaming { retries: made } => match event {
            WriteEvent::Renamed => WriteState::Done,
            WriteEvent::Denied => if made < retries {
                WriteState::Renaming { retries: made + 1 }
            } else {
                WriteState::Removing
            },
            WriteEvent::RenameFailed => WriteState::Removing,
            _ => WriteState::Failed,
        },
        WriteState::Removing => WriteState::Failed,
        WriteState::Done => WriteState::Done,
        WriteState::Failed => WriteState::Failed,
    };
    let action = match next {
        WriteState::Creating { .. } => WriteAction::Create,
        WriteState::Writing => WriteAction::Fill,
        WriteState::Renaming { .. } => WriteAction::Rename,
        WriteState::Removing => WriteAction::Remove,
        WriteState::Done => WriteAction::Stop,
        WriteState::Failed => WriteAction::Stop,
    };
    (next, action)
}

/// The rename is the one step that commits: a write reaches `Done` by a
/// rename that succeeded and by nothing else, and before that no step asked
/// for touches the target.
pub proof fn lemma_rename_commits(state: WriteState, event: WriteEvent, locking: bool)
    requires
        !target_replaced(state),
    ensures
        target_replaced(next_state(state, event, locking)) <==> (state is Renaming && event
            == WriteEvent::Renamed),
        action_of(state) != WriteAction::Rename ==> !target_replaced(
            next_state(state, event, locking),
        ),
{
}

/// A failure after the temporary file was created is followed by its
/// removal, and a failure ends the write without the target replaced.
pub proof fn lemma_failure_cleans_up(state: WriteState, event: WriteEvent, locking: bool)
    requires
        (state is Writing && event == WriteEvent::WriteFailed) || (state is Renaming && event
            == WriteEvent::RenameFailed) || (state == (WriteState::Renaming {
            retries: rename_retries(locking),
        }) && event == WriteEvent::Denied),
    ensures
        next_state(state, event, locking) == WriteState::Removing,
        action_of(next_state(state, event, locking)) == WriteAction::Remove,
        forall|e: WriteEvent|
            !target_replaced(next_state(next_state(state, event, locking), e, locking)),
{
}

} // verus!
