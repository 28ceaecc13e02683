//! The order in which a changed record file is replaced on disk.
//!
//! The library touches no file. It says what the host is to do next, and the
//! host says how that went: first a copy of the file to its backup, then,
//! only if the copy was made, the overwriting of the file with the encoded
//! survivors.

use crate::wire::MalformedInput;
use vstd::prelude::*;

verus! {

/// How the reconciliation of one record file ended.
#[derive(Clone, Copy, Debug, PartialEq, Eq, Structural)]
pub enum Verdict {
    /// Every entry stayed. The file was neither copied nor written.
    Unchanged,
    /// Entries were dropped, the file was backed up and then overwritten.
    Rewritten,
    /// The file violates the grammar. Nothing was written.
    MalformedInput(MalformedInput),
    /// The backup could not be made. The file is untouched.
    BackupFailed,
    /// The file could not be overwritten after the backup was made. It may
    /// be damaged; the backup holds what it was.
    WriteFailed,
}

impl Verdict {
    /// Whether the verdict is one of the three failures.
    pub open spec fn failed(self) -> bool {
        !(self == Verdict::Unchanged || self == Verdict::Rewritten)
    }

    /// Whether the verdict is one of the three failures.
    pub fn is_failure(&self) -> (r: bool)
        ensures
            r == self.failed(),
    {
        match self {
            Verdict::Unchanged => false,
            Verdict::Rewritten => false,
            _ => true,
        }
    }
}

/// Where the replacing of a record file stands.
#[derive(Clone, Copy, Debug, PartialEq, Eq, Structural)]
pub enum Stage {
    /// The host was told to back the file up.
    BackingUp,
    /// The backup exists and the host was told to overwrite the file.
    Writing,
    /// Nothing more is to be done.
    Closed(Verdict),
}

/// What the host is to do next.
#[derive(Clone, Copy, Debug, PartialEq, Eq, Structural)]
pub enum Action {
    /// Copy the record file to its backup.
    Backup,
    /// Encode the surviving entries and overwrite the record file with them.
    Write,
    /// Nothing more; this is how it ended.
    Stop(Verdict),
}

/// The stage and the first action for a file that was decoded and
/// reconciled.
pub open spec fn begin_spec(changed: bool) -> (Stage, Action) {
    if changed {
        (Stage::BackingUp, Action::Backup)
    } else {
        (Stage::Closed(Verdict::Unchanged), Action::Stop(Verdict::Unchanged))
    }
}

/// The stage and the action that follow when the host reports whether the
/// last action succeeded.
pub open spec fn advance_spec(stage: Stage, succeeded: bool) -> (Stage, Action) {
    match stage {
        Stage::BackingUp => if succeeded {
            (Stage::Writing, Action::Write)
        } else {
            (Stage::Closed(Verdict::BackupFailed), Action::Stop(Verdict::BackupFailed))
        },
        Stage::Writing => if succeeded {
            (Stage::Closed(Verdict::Rewritten), Action::Stop(Verdict::Rewritten))
        } else {
            (Stage::Closed(Verdict::WriteFailed), Action::Stop(Verdict::WriteFailed))
        },
        Stage::Closed(end) => (Stage::Closed(end), Action::Stop(end)),
    }
}

/// Starts the replacing of a record file whose entries were reconciled.
/// `changed` says whether an entry was dropped. An unchanged file is left
/// alone: it is neither copied nor written.
pub fn begin(changed: bool) -> (r: (Stage, Action))
    ensures
        r == begin_spec(changed),
{
    if changed {
        (Stage::BackingUp, Action::Backup)
    } else {
        (Stage::Closed(Verdict::Unchanged), Action::Stop(Verdict::Unchanged))
    }
}

/// Takes the host's report on the last action and says what is next.
///
/// The file is written only after its backup was made. A failed backup ends
/// the work with the file untouched, a failed write with a file that may be
/// damaged. Once the work has ended, the same end is given again.
pub fn advance(stage: Stage, succeeded: bool) -> (r: (Stage, Action))
    ensures
        r == advance_spec(stage, succeeded),
{
    match stage {
        Stage::BackingUp => {
            if succeeded {
                (Stage::Writing, Action::Write)
            } else {
                (
                    Stage::Closed(Verdict::BackupFailed),
                    Action::Stop(Verdict::BackupFailed),
                )
            }
        },
        Stage::Writing => {
            if succeeded {
                (Stage::Closed(Verdict::Rewritten), Action::Stop(Verdict::Rewritten))
            } else {
                (Stage::Closed(Verdict::WriteFailed), Action::Stop(Verdict::WriteFailed))
            }
        },
        Stage::Closed(end) => (Stage::Closed(end), Action::Stop(end)),
    }
}

/// The end of the work on a file that could not be decoded: nothing is
/// copied and nothing is written.
pub fn reject(flaw: MalformedInput) -> (r: (Stage, Action))
    ensures
        r == (
            Stage::Closed(Verdict::MalformedInput(flaw)),
            Action::Stop(Verdict::MalformedInput(flaw)),
        ),
{
    (Stage::Closed(Verdict::MalformedInput(flaw)), Action::Stop(Verdict::MalformedInput(flaw)))
}

/// The stage after the host's reports `reports`, taken in order from the
/// start.
pub open spec fn stage_after(changed: bool, reports: Seq<bool>) -> Stage
    decreases reports.len(),
{
    if reports.len() == 0 {
        begin_spec(changed).0
    } else {
        advance_spec(stage_after(changed, reports.drop_last()), reports.last()).0
    }
}

/// The action that the host is told after the reports `reports`.
pub open spec fn action_after(changed: bool, reports: Seq<bool>) -> Action
    decreases reports.len(),
{
    if reports.len() == 0 {
        begin_spec(changed).1
    } else {
        advance_spec(stage_after(changed, reports.drop_last()), reports.last()).1
    }
}

/// The host is told to write only as the answer to its first report, and
/// only if that report says that the backup was made and the entries had
/// changed.
pub proof fn lemma_write_follows_backup(changed: bool, reports: Seq<bool>)
    ensures
        action_after(changed, reports) == Action::Write <==> changed && reports.len() == 1
            && reports[0],
        action_after(changed, reports) == Action::Backup <==> changed && reports.len() == 0,
        !changed ==> action_after(changed, reports) == Action::Stop(Verdict::Unchanged),
    decreases reports.len(),
{
    if reports.len() > 0 {
        lemma_write_follows_backup(changed, reports.drop_last());
        lemma_stage(changed, reports.drop_last());
        if reports.len() == 1 {
            assert(reports.drop_last().len() == 0);
            assert(reports.last() == reports[0]);
        }
    }
}

/// The stage that every run of reports leads to.
pub proof fn lemma_stage(changed: bool, reports: Seq<bool>)
    ensures
        stage_after(changed, reports) == if !changed {
            Stage::Closed(Verdict::Unchanged)
        } else if reports.len() == 0 {
            Stage::BackingUp
        } else if !reports[0] {
            Stage::Closed(Verdict::BackupFailed)
        } else if reports.len() == 1 {
            Stage::Writing
        } else if reports[1] {
            Stage::Closed(Verdict::Rewritten)
        } else {
            Stage::Closed(Verdict::WriteFailed)
        },
    decreases reports.len(),
{
    if reports.len() > 0 {
        let shorter = reports.drop_last();
        lemma_stage(changed, shorter);
        if shorter.len() > 0 {
            assert(shorter[0] == reports[0]);
        }
        if shorter.len() > 1 {
            assert(shorter[1] == reports[1]);
        }
    }
}

} // verus!
