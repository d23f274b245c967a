//! How the files of the program are read and written: what a file that
//! could not be read stands for, and the steps that replace a file so that
//! it is never seen half written.
//!
//! The files are touched elsewhere. Here is what to make of a file, and
//! what to do next while one is written.

use vstd::prelude::*;

verus! {

/// What reading a file gave.
#[derive(Debug)]
pub enum Loaded<T> {
    /// There is no such file.
    Missing,
    /// The file is there, and its content cannot be understood.
    Corrupt,
    /// The content of the file.
    Read(T),
}

/// Where the writing of a file stands.
#[derive(Debug, Clone, Copy, PartialEq, Eq, Structural)]
pub enum SaveState {
    /// Nothing was done yet.
    Idle,
    /// A temporary file that an earlier run may have left is being removed.
    Clearing,
    /// The temporary file beside the target is being created.
    Creating,
    /// The content is being written to the temporary file.
    Writing,
    /// The temporary file is being flushed to the disk.
    Syncing,
    /// The temporary file is being renamed over the target.
    Renaming,
    /// The target holds the new content.
    Done,
    /// A step failed; the target is as it was.
    Failed,
}

/// A step of the writing that can fail.
#[derive(Debug, Clone, Copy, PartialEq, Eq, Structural)]
pub enum SaveStep {
    Create,
    Write,
    Sync,
    Rename,
}

/// What to do next.
#[derive(Debug, Clone, Copy, PartialEq, Eq, Structural)]
pub enum SaveAction {
    /// Remove the temporary file, and do not mind if that fails.
    RemoveTemp,
    /// Create the temporary file.
    CreateTemp,
    /// Write all of the content to the temporary file.
    WriteTemp,
    /// Flush the temporary file to the disk.
    SyncTemp,
    /// Rename the temporary file over the target, in one step.
    RenameOverTarget,
    /// Report success.
    Finish,
    /// Report that a step failed.
    Fail(SaveStep),
    /// Nothing.
    Nothing,
}

/// The state after the last action has ended, well or not, and what to do
/// next. The first step asks for no action to have ended, and the removal of
/// a left-over temporary file may fail: there `ok` is not looked at.
pub open spec fn save_step(state: SaveState, ok: bool) -> (SaveState, SaveAction) {
    match state {
        SaveState::Idle => (SaveState::Clearing, SaveAction::RemoveTemp),
        SaveState::Clearing => (SaveState::Creating, SaveAction::CreateTemp),
        SaveState::Creating => if ok {
            (SaveState::Writing, SaveAction::WriteTemp)
        } else {
            (SaveState::Failed, SaveAction::Fail(SaveStep::Create))
        },
        SaveState::Writing => if ok {
            (SaveState::Syncing, SaveAction::SyncTemp)
        } else {
            (SaveState::Failed, SaveAction::Fail(SaveStep::Write))
        },
        SaveState::Syncing => if ok {
            (SaveState::Renaming, SaveAction::RenameOverTarget)
        } else {
            (SaveState::Failed, SaveAction::Fail(SaveStep::Sync))
        },
        SaveState::Renaming => if ok {
            (SaveState::Done, SaveAction::Finish)
        } else {
            (SaveState::Failed, SaveAction::Fail(SaveStep::Rename))
        },
        SaveState::Done => (SaveState::Done, SaveAction::Nothing),
        SaveState::Failed => (SaveState::Failed, SaveAction::Nothing),
    }
}

/// The writing of one file.
#[derive(Debug, Clone, Copy, PartialEq, Eq, Structural)]
pub struct AtomicWrite {
    pub state: SaveState,
}

impl AtomicWrite {
    /// A writing that has done nothing yet.
    pub fn new() -> (w: AtomicWrite)
        ensures
            w.state == SaveState::Idle,
    {
        AtomicWrite { state: SaveState::Idle }
    }

    /// Takes note of how the last action ended and says what to do next.
    pub fn next(&mut self, ok: bool) -> (action: SaveAction)
        ensures
            (final(self).state, action) == save_step(old(self).state, ok),
    {
        let (state, action) = match self.state {
            SaveState::Idle => (SaveState::Clearing, SaveAction::RemoveTemp),
            SaveState::Clearing => (SaveState::Creating, SaveAction::CreateTemp),
            SaveState::Creating => {
                if ok {
                    (SaveState::Writing, SaveAction::WriteTemp)
                } else {
                    (SaveState::Failed, SaveAction::Fail(SaveStep::Create))
                }
            },
            SaveState::Writing => {
                if ok {
                    (SaveState::Syncing, SaveAction::SyncTemp)
                } else {
                    (SaveState::Failed, SaveAction::Fail(SaveStep::Write))
                }
            },
            SaveState::Syncing => {
                if ok {
                    (SaveState::Renaming, SaveAction::RenameOverTarget)
                } else {
                    (SaveState::Failed, SaveAction::Fail(SaveStep::Sync))
                }
            },
            SaveState::Renaming => {
                if ok {
                    (SaveState::Done, SaveAction::Finish)
                } else {
                    (SaveState::Failed, SaveAction::Fail(SaveStep::Rename))
                }
            },
            SaveState::Done => (SaveState::Done, SaveAction::Nothing),
            SaveState::Failed => (SaveState::Failed, SaveAction::Nothing),
        };
        self.state = state;
        action
    }
}

/// How far a writing has come.
pub open spec fn progress(state: SaveState) -> nat {
    match state {
        SaveState::Idle => 0,
        SaveState::Clearing => 1,
        SaveState::Creating => 2,
        SaveState::Writing => 3,
        SaveState::Syncing => 4,
        SaveState::Renaming => 5,
        SaveState::Done => 6,
        SaveState::Failed => 6,
    }
}

/// The target is touched by one action alone, the renaming, and that comes
/// only when the whole content is on the disk under the temporary name.
pub proof fn target_is_replaced_in_one_step(state: SaveState, ok: bool)
    ensures
        save_step(state, ok).1 == SaveAction::RenameOverTarget <==> (state == SaveState::Syncing
            && ok),
        save_step(state, ok).1 == SaveAction::Finish <==> (state == SaveState::Renaming && ok),
{
}

/// Every step but the last brings the writing forward, so no action is
/// asked for twice.
pub proof fn writing_moves_forward(state: SaveState, ok: bool)
    ensures
        state != SaveState::Done && state != SaveState::Failed ==> progress(
            save_step(state, ok).0,
        ) > progress(state),
        state == SaveState::Done || state == SaveState::Failed ==> save_step(state, ok) == (
            state,
            SaveAction::Nothing,
        ),
{
}

/// A step that fails ends the writing before the target is touched, except
/// where the renaming itself fails.
pub proof fn failure_leaves_the_target(state: SaveState)
    ensures
        save_step(state, false).1 != SaveAction::RenameOverTarget,
        (state == SaveState::Creating || state == SaveState::Writing || state
            == SaveState::Syncing || state == SaveState::Renaming) ==> save_step(state, false).0
            == SaveState::Failed,
{
}

} // verus!
