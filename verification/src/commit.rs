//! Committing the registry: the steps that write the record of every name
//! so that an interruption never costs a record that was on disk before.
//!
//! For each name the record file, if there is one, is first renamed to a
//! backup; the new record is then written to a fresh file; after that the
//! backup is removed. Where the write fails the backup is renamed back.

use crate::alternative_db::{AlternativeDb, Store};
use crate::json::json_text;
use crate::record::record_tree;
use vstd::prelude::*;
use vstd::string::StringExecFns;
use vstd::utf8::encode_utf8;

verus! {

/// The path of the record of `name` in the directory `folder`.
pub open spec fn record_path(folder: Seq<char>, name: Seq<char>) -> Seq<char> {
    folder + "/"@ + name + ".json"@
}

/// The path that the record of `name` is kept at while a new one is written.
pub open spec fn backup_path(folder: Seq<char>, name: Seq<char>) -> Seq<char> {
    record_path(folder, name) + ".old"@
}

/// The number of bytes that `text` takes in a file.
pub open spec fn byte_length(text: Seq<char>) -> usize {
    encode_utf8(text).len() as usize
}

/// The sum of `a` and `b`, or the largest number that the machine counts
/// where the sum is beyond it.
pub open spec fn capped_sum(a: usize, b: usize) -> usize {
    if a + b > usize::MAX {
        usize::MAX
    } else {
        (a + b) as usize
    }
}

/// The path of the record of `name` in the directory `folder`.
pub fn record_file(folder: &str, name: &str) -> (path: String)
    ensures
        path@ == record_path(folder@, name@),
{
    let mut path = folder.to_owned();
    path.append("/");
    path.append(name);
    path.append(".json");
    path
}

/// The path that the record of `name` is kept at while a new one is written.
pub fn backup_file(folder: &str, name: &str) -> (path: String)
    ensures
        path@ == backup_path(folder@, name@),
{
    let mut path = record_file(folder, name);
    path.append(".old");
    path
}

/// What stands at the path of the directory of records.
#[derive(Clone, Copy, PartialEq, Eq, Structural, Debug)]
pub enum DirState {
    /// Nothing.
    Missing,
    /// A directory.
    Directory,
    /// Something that is no directory.
    Other,
}

/// What the caller reports to the commit.
#[derive(Clone, Copy, PartialEq, Eq, Structural, Debug)]
pub enum CommitEvent {
    /// The commit begins.
    Start,
    /// The answer to `InspectDir`.
    Dir(DirState),
    /// The answer to `Probe`: whether a file stands at the path.
    Exists(bool),
    /// The last action was carried out.
    Done,
    /// The last action failed.
    Failed,
}

/// Why a commit was given up.
#[derive(Debug, PartialEq, Eq)]
pub enum CommitError {
    /// What stands at the path of the directory is no directory.
    NotADirectory { path: String },
    /// The directory could be neither found nor made.
    NoDirectory { path: String },
    /// The record at `path` could not be written, and its backup could
    /// not be renamed back.
    WriteFailed { path: String },
    /// A report came that the commit was not waiting for.
    OutOfTurn,
}

/// What the caller is asked to do next.
#[derive(Debug, PartialEq, Eq)]
pub enum CommitAction {
    /// Report what stands at `path`, where the directory of records belongs.
    InspectDir { path: String },
    /// Make the directory `path` with every directory above it that is missing.
    CreateDir { path: String },
    /// Report whether a file stands at `path`.
    Probe { path: String },
    /// Rename the file `from` to `to`.
    Rename { from: String, to: String },
    /// Make a fresh file at `path` and write `contents` to it.
    Write { path: String, contents: String },
    /// Remove the file at `path`.
    Remove { path: String },
    /// The commit is over; `written` counts the bytes of the records that
    /// were written.
    Finished { written: usize },
    /// The commit is given up.
    Abort(CommitError),
}

/// A request of the commit, as plain values.
pub enum CommitTask {
    InspectDir(Seq<char>),
    CreateDir(Seq<char>),
    Probe(Seq<char>),
    Rename(Seq<char>, Seq<char>),
    Write(Seq<char>, Seq<char>),
    Remove(Seq<char>),
    Finished(usize),
    NotADirectory(Seq<char>),
    NoDirectory(Seq<char>),
    WriteFailed(Seq<char>),
    OutOfTurn,
}

impl View for CommitAction {
    type V = CommitTask;

    open spec fn view(&self) -> CommitTask {
        match self {
            CommitAction::InspectDir { path } => CommitTask::InspectDir(path@),
            CommitAction::CreateDir { path } => CommitTask::CreateDir(path@),
            CommitAction::Probe { path } => CommitTask::Probe(path@),
            CommitAction::Rename { from, to } => CommitTask::Rename(from@, to@),
            CommitAction::Write { path, contents } => CommitTask::Write(path@, contents@),
            CommitAction::Remove { path } => CommitTask::Remove(path@),
            CommitAction::Finished { written } => CommitTask::Finished(*written),
            CommitAction::Abort(CommitError::NotADirectory { path }) => CommitTask::NotADirectory(
                path@,
            ),
            CommitAction::Abort(CommitError::NoDirectory { path }) => CommitTask::NoDirectory(
                path@,
            ),
            CommitAction::Abort(CommitError::WriteFailed { path }) => CommitTask::WriteFailed(
                path@,
            ),
            CommitAction::Abort(CommitError::OutOfTurn) => CommitTask::OutOfTurn,
        }
    }
}

/// What a commit is waiting for.
#[derive(Clone, Copy, PartialEq, Eq, Structural, Debug)]
pub enum CommitStage {
    /// For `Start`.
    Idle,
    /// For what stands at the path of the directory.
    InspectingDir,
    /// For the directory to be made.
    CreatingDir,
    /// For whether the name at `next` has a record file.
    ProbingRecord,
    /// For the record file to be renamed to the backup.
    SavingOld,
    /// For the new record to be written.
    Writing,
    /// For whether there is a backup to remove.
    ProbingBackup,
    /// For the backup to be removed.
    RemovingBackup,
    /// For the backup to be renamed back.
    Restoring,
    /// For nothing: the commit is over.
    Closed,
}

/// How far a commit has come.
#[derive(Clone, Copy, PartialEq, Eq, Structural, Debug)]
pub struct Commit {
    pub stage: CommitStage,
    /// The place of the name whose record is being written.
    pub next: usize,
    /// The bytes of the records written so far.
    pub written: usize,
    /// The bytes of the record that is being written.
    pub pending: usize,
}

/// The commit turns to the name at place `i`, and is over where there is none.
pub open spec fn begin_entry(store: Store, folder: Seq<char>, i: int, written: usize) -> (
    Commit,
    CommitTask,
) {
    if 0 <= i < store.items.len() {
        (
            Commit { stage: CommitStage::ProbingRecord, next: i as usize, written, pending: 0 },
            CommitTask::Probe(record_path(folder, store.items[i].name)),
        )
    } else {
        (
            Commit { stage: CommitStage::Closed, next: i as usize, written, pending: 0 },
            CommitTask::Finished(written),
        )
    }
}

/// The commit writes the record of the name at `state.next`, whose text is
/// `rendered`; where there is no text it goes on as after a failed write.
pub open spec fn begin_write(
    store: Store,
    folder: Seq<char>,
    state: Commit,
    rendered: Option<Seq<char>>,
) -> (Commit, CommitTask) {
    let name = store.items[state.next as int].name;
    match rendered {
        Some(text) => (
            Commit {
                stage: CommitStage::Writing,
                next: state.next,
                written: state.written,
                pending: byte_length(text),
            },
            CommitTask::Write(record_path(folder, name), text),
        ),
        None => (
            Commit {
                stage: CommitStage::Restoring,
                next: state.next,
                written: state.written,
                pending: 0,
            },
            CommitTask::Rename(backup_path(folder, name), record_path(folder, name)),
        ),
    }
}

/// One step of a commit of `store` to the directory `folder`: the state
/// after `event` came in state `state`, and what the caller is asked to do.
/// `rendered` is the text of the record of the name at `state.next`, or
/// nothing where it could not be made; only the two steps that lead to the
/// write look at it.
pub open spec fn commit_step(
    store: Store,
    folder: Seq<char>,
    state: Commit,
    event: CommitEvent,
    rendered: Option<Seq<char>>,
) -> (Commit, CommitTask) {
    let closed = Commit {
        stage: CommitStage::Closed,
        next: state.next,
        written: state.written,
        pending: 0,
    };
    let at = |stage: CommitStage|
        Commit { stage, next: state.next, written: state.written, pending: 0 };
    match (state.stage, event) {
        (CommitStage::Idle, CommitEvent::Start) => (
            at(CommitStage::InspectingDir),
            CommitTask::InspectDir(folder),
        ),
        (CommitStage::InspectingDir, CommitEvent::Dir(DirState::Missing)) => (
            at(CommitStage::CreatingDir),
            CommitTask::CreateDir(folder),
        ),
        (CommitStage::InspectingDir, CommitEvent::Dir(DirState::Directory)) => begin_entry(
            store,
            folder,
            0,
            0,
        ),
        (CommitStage::InspectingDir, CommitEvent::Dir(DirState::Other)) => (
            closed,
            CommitTask::NotADirectory(folder),
        ),
        (CommitStage::InspectingDir, CommitEvent::Failed) => (
            closed,
            CommitTask::NoDirectory(folder),
        ),
        (CommitStage::CreatingDir, CommitEvent::Done) => begin_entry(store, folder, 0, 0),
        (CommitStage::CreatingDir, CommitEvent::Failed) => (
            closed,
            CommitTask::NoDirectory(folder),
        ),
        _ => if state.next >= store.items.len() {
            (closed, CommitTask::OutOfTurn)
        } else {
            let name = store.items[state.next as int].name;
            let record = record_path(folder, name);
            let backup = backup_path(folder, name);
            match (state.stage, event) {
                (CommitStage::ProbingRecord, CommitEvent::Exists(true)) => (
                    at(CommitStage::SavingOld),
                    CommitTask::Rename(record, backup),
                ),
                (CommitStage::ProbingRecord, CommitEvent::Exists(false)) => begin_write(
                    store,
                    folder,
                    state,
                    rendered,
                ),
                (CommitStage::SavingOld, CommitEvent::Done) => begin_write(
                    store,
                    folder,
                    state,
                    rendered,
                ),
                (CommitStage::SavingOld, CommitEvent::Failed) => begin_entry(
                    store,
                    folder,
                    state.next + 1,
                    state.written,
                ),
                (CommitStage::Writing, CommitEvent::Done) => (
                    Commit {
                        stage: CommitStage::ProbingBackup,
                        next: state.next,
                        written: capped_sum(state.written, state.pending),
                        pending: 0,
                    },
                    CommitTask::Probe(backup),
                ),
                (CommitStage::Writing, CommitEvent::Failed) => (
                    at(CommitStage::Restoring),
                    CommitTask::Rename(backup, record),
                ),
                (CommitStage::ProbingBackup, CommitEvent::Exists(true)) => (
                    at(CommitStage::RemovingBackup),
                    CommitTask::Remove(backup),
                ),
                (CommitStage::ProbingBackup, CommitEvent::Exists(false))
                | (CommitStage::RemovingBackup, CommitEvent::Done)
                | (CommitStage::RemovingBackup, CommitEvent::Failed)
                | (CommitStage::Restoring, CommitEvent::Done) => begin_entry(
                    store,
                    folder,
                    state.next + 1,
                    state.written,
                ),
                (CommitStage::Restoring, CommitEvent::Failed) => (
                    closed,
                    CommitTask::WriteFailed(record),
                ),
                _ => (closed, CommitTask::OutOfTurn),
            }
        },
    }
}

/// Whether the step that `event` sets off in `stage` leads to the write,
/// and so looks at the text of the record.
pub open spec fn leads_to_write(stage: CommitStage, event: CommitEvent) -> bool {
    ||| stage == CommitStage::ProbingRecord && event == CommitEvent::Exists(false)
    ||| stage == CommitStage::SavingOld && event == CommitEvent::Done
}

/// Only the step that leads to the write looks at the text of the record:
/// every other step is the same with any text and with none.
pub proof fn lemma_only_the_write_reads_the_text(
    store: Store,
    folder: Seq<char>,
    state: Commit,
    event: CommitEvent,
    rendered: Option<Seq<char>>,
)
    requires
        !leads_to_write(state.stage, event) || state.next >= store.items.len(),
    ensures
        commit_step(store, folder, state, event, rendered) == commit_step(
            store,
            folder,
            state,
            event,
            None,
        ),
{
}

/// A commit that is closed stays closed, whatever is reported to it.
pub proof fn lemma_closed_commit_stays_closed(
    store: Store,
    folder: Seq<char>,
    state: Commit,
    event: CommitEvent,
    rendered: Option<Seq<char>>,
)
    requires
        state.stage == CommitStage::Closed,
        state.pending == 0,
    ensures
        commit_step(store, folder, state, event, rendered) == (state, CommitTask::OutOfTurn),
{
}

/// A commit is given up for three reasons only: the directory is no
/// directory or cannot be had, a record could not be written and its backup
/// not be renamed back, or a report came out of turn. No other failure
/// stops it from going on to the next name.
pub proof fn lemma_commit_gives_up_rarely(
    store: Store,
    folder: Seq<char>,
    state: Commit,
    event: CommitEvent,
    rendered: Option<Seq<char>>,
)
    requires
        state.next < store.items.len(),
    ensures
        ({
            let task = commit_step(store, folder, state, event, rendered).1;
            &&& task is NotADirectory ==> state.stage == CommitStage::InspectingDir && event
                == CommitEvent::Dir(DirState::Other)
            &&& task is NoDirectory ==> event == CommitEvent::Failed && (state.stage
                == CommitStage::InspectingDir || state.stage == CommitStage::CreatingDir)
            &&& task is WriteFailed ==> state.stage == CommitStage::Restoring && event
                == CommitEvent::Failed
            &&& (state.stage == CommitStage::SavingOld || state.stage
                == CommitStage::RemovingBackup) && event == CommitEvent::Failed ==> task
                == begin_entry(store, folder, state.next + 1, state.written).1
        }),
{
}

/// The count of a commit grows by the bytes of a record when the write of
/// that record is reported done, and at no other step. The step that asks
/// for the write notes the bytes of the text; the count starts from nothing
/// when the commit turns to the first name.
pub proof fn lemma_commit_counts_written_bytes(
    store: Store,
    folder: Seq<char>,
    state: Commit,
    event: CommitEvent,
    rendered: Option<Seq<char>>,
)
    requires
        state.next < store.items.len(),
    ensures
        ({
            let next = commit_step(store, folder, state, event, rendered).0;
            let counted = state.stage == CommitStage::Writing && event == CommitEvent::Done;
            let first = (state.stage == CommitStage::InspectingDir && event == CommitEvent::Dir(
                DirState::Directory,
            )) || (state.stage == CommitStage::CreatingDir && event == CommitEvent::Done);
            &&& counted ==> next.written == capped_sum(state.written, state.pending)
            &&& first ==> next.written == 0
            &&& !counted && !first ==> next.written == state.written
            &&& leads_to_write(state.stage, event) ==> (match rendered {
                Some(text) => next.stage == CommitStage::Writing && next.pending == byte_length(
                    text,
                ),
                None => next.stage == CommitStage::Restoring,
            })
        }),
{
}

impl Commit {
    /// A commit that has not begun.
    pub fn new() -> (made: Commit)
        ensures
            made == (Commit { stage: CommitStage::Idle, next: 0, written: 0, pending: 0 }),
    {
        Commit { stage: CommitStage::Idle, next: 0, written: 0, pending: 0 }
    }
}

impl AlternativeDb {
    /// Turns to the name at place `i`.
    fn begin_entry(&self, folder: &str, i: usize, written: usize) -> (made: (Commit, CommitAction))
        ensures
            (made.0, made.1@) == begin_entry(self@, folder@, i as int, written),
    {
        match self.at(i) {
            Some((name, _)) => (
                Commit { stage: CommitStage::ProbingRecord, next: i, written, pending: 0 },
                CommitAction::Probe { path: record_file(folder, name) },
            ),
            None => (
                Commit { stage: CommitStage::Closed, next: i, written, pending: 0 },
                CommitAction::Finished { written },
            ),
        }
    }

    /// One step of a commit, given the text of the record of the name at
    /// `state.next`, or nothing where its text could not be made.
    pub fn commit_step(
        &self,
        folder: &str,
        state: Commit,
        event: CommitEvent,
        rendered: Option<String>,
    ) -> (made: (Commit, CommitAction))
        ensures
            (made.0, made.1@) == commit_step(
                self@,
                folder@,
                state,
                event,
                match rendered {
                    Some(text) => Some(text@),
                    None => None,
                },
            ),
    {
        let closed = Commit {
            stage: CommitStage::Closed,
            next: state.next,
            written: state.written,
            pending: 0,
        };
        match (state.stage, event) {
            (CommitStage::Idle, CommitEvent::Start) => {
                return (
                    Commit { stage: CommitStage::InspectingDir, ..closed },
                    CommitAction::InspectDir { path: folder.to_owned() },
                );
            },
            (CommitStage::InspectingDir, CommitEvent::Dir(DirState::Missing)) => {
                return (
                    Commit { stage: CommitStage::CreatingDir, ..closed },
                    CommitAction::CreateDir { path: folder.to_owned() },
                );
            },
            (CommitStage::InspectingDir, CommitEvent::Dir(DirState::Directory)) => {
                return self.begin_entry(folder, 0, 0);
            },
            (CommitStage::InspectingDir, CommitEvent::Dir(DirState::Other)) => {
                return (
                    closed,
                    CommitAction::Abort(CommitError::NotADirectory { path: folder.to_owned() }),
                );
            },
            (CommitStage::InspectingDir, CommitEvent::Failed) => {
                return (
                    closed,
                    CommitAction::Abort(CommitError::NoDirectory { path: folder.to_owned() }),
                );
            },
            (CommitStage::CreatingDir, CommitEvent::Done) => {
                return self.begin_entry(folder, 0, 0);
            },
            (CommitStage::CreatingDir, CommitEvent::Failed) => {
                return (
                    closed,
                    CommitAction::Abort(CommitError::NoDirectory { path: folder.to_owned() }),
                );
            },
            _ => {},
        }
        let name = match self.at(state.next) {
            Some((name, _)) => name,
            None => return (closed, CommitAction::Abort(CommitError::OutOfTurn)),
        };
        let record = record_file(folder, name);
        let backup = backup_file(folder, name);
        match (state.stage, event) {
            (CommitStage::ProbingRecord, CommitEvent::Exists(true)) => (
                Commit { stage: CommitStage::SavingOld, ..closed },
                CommitAction::Rename { from: record, to: backup },
            ),
            (CommitStage::ProbingRecord, CommitEvent::Exists(false))
            | (CommitStage::SavingOld, CommitEvent::Done) => match rendered {
                Some(contents) => (
                    Commit {
                        stage: CommitStage::Writing,
                        pending: contents.as_str().len(),
                        ..closed
                    },
                    CommitAction::Write { path: record, contents },
                ),
                None => (
                    Commit { stage: CommitStage::Restoring, ..closed },
                    CommitAction::Rename { from: backup, to: record },
                ),
            },
            (CommitStage::SavingOld, CommitEvent::Failed) => self.begin_entry(
                folder,
                state.next + 1,
                state.written,
            ),
            (CommitStage::Writing, CommitEvent::Done) => (
                Commit {
                    stage: CommitStage::ProbingBackup,
                    written: state.written.saturating_add(state.pending),
                    ..closed
                },
                CommitAction::Probe { path: backup },
            ),
            (CommitStage::Writing, CommitEvent::Failed) => (
                Commit { stage: CommitStage::Restoring, ..closed },
                CommitAction::Rename { from: backup, to: record },
            ),
            (CommitStage::ProbingBackup, CommitEvent::Exists(true)) => (
                Commit { stage: CommitStage::RemovingBackup, ..closed },
                CommitAction::Remove { path: backup },
            ),
            (CommitStage::ProbingBackup, CommitEvent::Exists(false))
            | (CommitStage::RemovingBackup, CommitEvent::Done)
            | (CommitStage::RemovingBackup, CommitEvent::Failed)
            | (CommitStage::Restoring, CommitEvent::Done) => self.begin_entry(
                folder,
                state.next + 1,
                state.written,
            ),
            (CommitStage::Restoring, CommitEvent::Failed) => (
                closed,
                CommitAction::Abort(CommitError::WriteFailed { path: record }),
            ),
            _ => (closed, CommitAction::Abort(CommitError::OutOfTurn)),
        }
    }

    /// One step of committing the registry to the directory `folder`. The
    /// caller starts with `Commit::new()` and `Start`, does what it is asked,
    /// reports the outcome with the state that it was handed, and goes on
    /// until it is handed `Finished` or `Abort`. The step that leads to the
    /// write makes the text of the record of the name in hand, so the result
    /// is that of `commit_step` with what `serde_json` writes for that
    /// record; every other step is that of `commit_step` with no text.
    pub fn write_out(&self, folder: &str, state: Commit, event: CommitEvent) -> (made: (
        Commit,
        CommitAction,
    ))
        ensures
            (made.0, made.1@) == commit_step(
                self@,
                folder@,
                state,
                event,
                if leads_to_write(state.stage, event) && state.next < self@.items.len() {
                    json_text(record_tree(self@.items[state.next as int].entry))
                } else {
                    None
                },
            ),
    {
        let wanted = match (state.stage, event) {
            (CommitStage::ProbingRecord, CommitEvent::Exists(false))
            | (CommitStage::SavingOld, CommitEvent::Done) => true,
            _ => false,
        };
        let rendered = if wanted {
            match self.at(state.next) {
                Some((_, list)) => match list.to_text() {
                    Ok(text) => Some(text),
                    Err(_) => None,
                },
                None => None,
            }
        } else {
            None
        };
        self.commit_step(folder, state, event, rendered)
    }
}

} // verus!
