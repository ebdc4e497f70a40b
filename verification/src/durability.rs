//! Why a commit never costs a record: the steps of a commit against a model
//! of the files they touch.
//!
//! The model takes a rename and a removal to happen wholly or not at all,
//! and lets a write that fails leave anything at its path. Nothing here is
//! executable; the statements are about `commit_step`.

use crate::alternative_db::{distinct_names, lemma_record_files_load_back, loaded_items, Store};
use crate::commit::{
    backup_path, byte_length, capped_sum, commit_step, leads_to_write,
    lemma_only_the_write_reads_the_text, record_path, Commit, CommitEvent, CommitStage,
    CommitTask, DirState,
};
use crate::json::json_text;
use crate::listing::{record_in, Found};
use crate::record::record_tree;
use vstd::prelude::*;

verus! {

/// The files after the caller did what `task` asks: `done` tells whether it
/// succeeded, and `left` what a write that failed has left at its path, a
/// text or nothing.
pub open spec fn files_after(
    files: Map<Seq<char>, Seq<char>>,
    task: CommitTask,
    done: bool,
    left: Option<Seq<char>>,
) -> Map<Seq<char>, Seq<char>> {
    match task {
        CommitTask::Rename(from, to) => if done && files.contains_key(from) {
            files.remove(from).insert(to, files[from])
        } else {
            files
        },
        CommitTask::Write(path, text) => if done {
            files.insert(path, text)
        } else {
            match left {
                Some(rest) => files.insert(path, rest),
                None => files.remove(path),
            }
        },
        CommitTask::Remove(path) => if done {
            files.remove(path)
        } else {
            files
        },
        _ => files,
    }
}

/// The report that an honest caller gives after `task`, given how it went
/// and the files as they are then.
pub open spec fn report_after(
    files: Map<Seq<char>, Seq<char>>,
    task: CommitTask,
    done: bool,
) -> CommitEvent {
    match task {
        CommitTask::Probe(path) => CommitEvent::Exists(files.contains_key(path)),
        _ => if done {
            CommitEvent::Done
        } else {
            CommitEvent::Failed
        },
    }
}

/// The file at `path` holds `text`.
pub open spec fn holds(files: Map<Seq<char>, Seq<char>>, path: Seq<char>, text: Seq<char>) -> bool {
    files.contains_key(path) && files[path] == text
}

/// The record of a name is safe: where there was a record `old` before the
/// commit turned to the name, either the record file or the backup holds it
/// whole, or the record file holds the new record `new` whole.
pub open spec fn is_safe(
    files: Map<Seq<char>, Seq<char>>,
    record: Seq<char>,
    backup: Seq<char>,
    old: Option<Seq<char>>,
    new: Seq<char>,
) -> bool {
    old matches Some(text) ==> holds(files, record, text) || holds(files, backup, text) || holds(
        files,
        record,
        new,
    )
}

/// The files are what an honest caller has left when it reports `event` to
/// a commit in `stage`, where `old` is what the record file held when the
/// commit turned to the name, and `new` the record to write.
pub open spec fn is_consistent(
    stage: CommitStage,
    event: CommitEvent,
    files: Map<Seq<char>, Seq<char>>,
    record: Seq<char>,
    backup: Seq<char>,
    old: Option<Seq<char>>,
    new: Seq<char>,
) -> bool {
    match (stage, event) {
        (CommitStage::ProbingRecord, CommitEvent::Exists(there)) => there == old.is_some() && (
        match old {
            Some(text) => holds(files, record, text),
            None => !files.contains_key(record),
        }),
        (CommitStage::SavingOld, CommitEvent::Done) => old matches Some(text) && holds(
            files,
            backup,
            text,
        ) && !files.contains_key(record),
        (CommitStage::SavingOld, CommitEvent::Failed) => old matches Some(text) && holds(
            files,
            record,
            text,
        ),
        (CommitStage::Writing, CommitEvent::Done) => holds(files, record, new),
        (CommitStage::Writing, CommitEvent::Failed) => old matches Some(text) ==> holds(
            files,
            backup,
            text,
        ),
        (CommitStage::ProbingBackup, CommitEvent::Exists(there)) => holds(files, record, new)
            && there == files.contains_key(backup),
        (CommitStage::RemovingBackup, CommitEvent::Done)
        | (CommitStage::RemovingBackup, CommitEvent::Failed) => holds(files, record, new),
        (CommitStage::Restoring, CommitEvent::Done) => old matches Some(text) ==> holds(
            files,
            record,
            text,
        ),
        (CommitStage::Restoring, CommitEvent::Failed) => old matches Some(text) ==> holds(
            files,
            backup,
            text,
        ),
        _ => false,
    }
}

/// The path of a record is never the path of its backup.
pub proof fn lemma_backup_is_another_path(folder: Seq<char>, name: Seq<char>)
    ensures
        record_path(folder, name) != backup_path(folder, name),
{
    reveal_strlit(".old");
    assert(backup_path(folder, name).len() == record_path(folder, name).len() + 4);
}

/// The records and backups of two names stand at four different paths.
pub proof fn lemma_names_have_their_own_paths(folder: Seq<char>, a: Seq<char>, b: Seq<char>)
    requires
        a != b,
    ensures
        record_path(folder, a) != record_path(folder, b),
        backup_path(folder, a) != backup_path(folder, b),
        record_path(folder, a) != backup_path(folder, b),
        backup_path(folder, a) != record_path(folder, b),
{
    reveal_strlit("/");
    reveal_strlit(".json");
    reveal_strlit(".old");
    let ra = record_path(folder, a);
    let rb = record_path(folder, b);
    let ba = backup_path(folder, a);
    let bb = backup_path(folder, b);
    let start = folder.len() + 1;
    assert(ra.len() == start + a.len() + 5);
    assert(rb.len() == start + b.len() + 5);
    assert(ba.len() == ra.len() + 4);
    assert(bb.len() == rb.len() + 4);
    assert forall|k: int| 0 <= k < a.len() implies ra[start + k] == a[k] && ba[start + k]
        == a[k] by {}
    assert forall|k: int| 0 <= k < b.len() implies rb[start + k] == b[k] && bb[start + k]
        == b[k] by {}
    if ra == rb || ba == bb {
        assert(a.len() == b.len());
        assert forall|k: int| 0 <= k < a.len() implies a[k] == b[k] by {
            assert(ra[start + k] == a[k]);
            assert(rb[start + k] == b[k]);
            assert(ba[start + k] == a[k]);
            assert(bb[start + k] == b[k]);
        }
        assert(a =~= b);
    }
    assert(ra[ra.len() - 1] == 'n');
    assert(rb[rb.len() - 1] == 'n');
    assert(ba[ba.len() - 1] == 'd');
    assert(bb[bb.len() - 1] == 'd');
}

/// What a commit asks for touches no file but the record and the backup of
/// the name in hand.
pub proof fn lemma_step_spares_other_files(
    store: Store,
    folder: Seq<char>,
    state: Commit,
    event: CommitEvent,
    rendered: Option<Seq<char>>,
    files: Map<Seq<char>, Seq<char>>,
    done: bool,
    left: Option<Seq<char>>,
    path: Seq<char>,
)
    requires
        state.next < store.items.len(),
        path != record_path(folder, store.items[state.next as int].name),
        path != backup_path(folder, store.items[state.next as int].name),
        state.stage != CommitStage::Idle,
        state.stage != CommitStage::InspectingDir,
        state.stage != CommitStage::CreatingDir,
    ensures
        ({
            let task = commit_step(store, folder, state, event, rendered).1;
            let after = files_after(files, task, done, left);
            after.contains_key(path) == files.contains_key(path) && after[path] == files[path]
        }),
{
}

/// An interrupted write costs nothing. Where the record of a name is on
/// disk, the commit has it renamed to the backup before it has the new
/// record written; whatever a write that fails leaves at the path of the
/// record, the rename that the commit asks for next puts the old record
/// back as it was.
pub proof fn lemma_interrupted_write_is_undone(
    store: Store,
    folder: Seq<char>,
    state: Commit,
    text: Seq<char>,
    files: Map<Seq<char>, Seq<char>>,
    left: Option<Seq<char>>,
)
    requires
        state.stage == CommitStage::ProbingRecord,
        state.next < store.items.len(),
        files.contains_key(record_path(folder, store.items[state.next as int].name)),
    ensures
        ({
            let record = record_path(folder, store.items[state.next as int].name);
            let backup = backup_path(folder, store.items[state.next as int].name);
            let there = CommitEvent::Exists(true);
            let (saving, save) = commit_step(store, folder, state, there, None);
            let saved = files_after(files, save, true, None);
            let done = CommitEvent::Done;
            let (writing, write) = commit_step(store, folder, saving, done, Some(text));
            let torn = files_after(saved, write, false, left);
            let (_, restore) = commit_step(store, folder, writing, CommitEvent::Failed, None);
            let restored = files_after(torn, restore, true, None);
            &&& save == CommitTask::Rename(record, backup)
            &&& write == CommitTask::Write(record, text)
            &&& restore == CommitTask::Rename(backup, record)
            &&& holds(saved, backup, files[record])
            &&& holds(torn, backup, files[record])
            &&& holds(restored, record, files[record])
        }),
{
    lemma_backup_is_another_path(folder, store.items[state.next as int].name);
}

/// One step of a commit keeps the files in order. Where the files are what
/// an honest caller has left when it reports `event`, and the caller then
/// does what the step asks, with success or without, the files are again
/// what an honest caller has left when it gives its next report, as long as
/// the commit stays with the name. `new` is the record that the step has
/// written where it leads to the write.
pub proof fn lemma_step_keeps_files_consistent(
    store: Store,
    folder: Seq<char>,
    state: Commit,
    event: CommitEvent,
    rendered: Option<Seq<char>>,
    files: Map<Seq<char>, Seq<char>>,
    old: Option<Seq<char>>,
    new: Seq<char>,
    done: bool,
    left: Option<Seq<char>>,
)
    requires
        state.next < store.items.len() <= usize::MAX,
        rendered matches Some(text) ==> text == new,
        is_consistent(
            state.stage,
            event,
            files,
            record_path(folder, store.items[state.next as int].name),
            backup_path(folder, store.items[state.next as int].name),
            old,
            new,
        ),
    ensures
        ({
            let record = record_path(folder, store.items[state.next as int].name);
            let backup = backup_path(folder, store.items[state.next as int].name);
            let (next, task) = commit_step(store, folder, state, event, rendered);
            let after = files_after(files, task, done, left);
            let stays = next.next == state.next && next.stage != CommitStage::Closed;
            &&& is_safe(files, record, backup, old, new)
            &&& is_safe(after, record, backup, old, new)
            &&& stays ==> is_consistent(
                next.stage,
                report_after(after, task, done),
                after,
                record,
                backup,
                old,
                new,
            )
            &&& !stays ==> after == files
        }),
{
    lemma_backup_is_another_path(folder, store.items[state.next as int].name);
}

/// What the caller meets when it does what one step asks: whether the
/// action succeeds, what a write that fails leaves at its path, and what
/// stands where the directory belongs.
pub struct Turn {
    pub done: bool,
    pub left: Option<Seq<char>>,
    pub dir: DirState,
}

/// The report of an honest caller after it did what `task` asks and met
/// `turn`, the files being `files` by then.
pub open spec fn honest_report(
    files: Map<Seq<char>, Seq<char>>,
    task: CommitTask,
    turn: Turn,
) -> CommitEvent {
    match task {
        CommitTask::InspectDir(_) => if turn.done {
            CommitEvent::Dir(turn.dir)
        } else {
            CommitEvent::Failed
        },
        _ => report_after(files, task, turn.done),
    }
}

/// A commit that is run by an honest caller: the state, the report in hand
/// and the files after the caller went through `turns`, one step for each.
/// `texts` holds for each name the text of its record, or nothing where
/// none can be made.
pub open spec fn run(
    store: Store,
    folder: Seq<char>,
    texts: Seq<Option<Seq<char>>>,
    state: Commit,
    event: CommitEvent,
    files: Map<Seq<char>, Seq<char>>,
    turns: Seq<Turn>,
) -> (Commit, CommitEvent, Map<Seq<char>, Seq<char>>)
    decreases turns.len(),
{
    if turns.len() == 0 {
        (state, event, files)
    } else {
        let (next, task) = commit_step(store, folder, state, event, texts[state.next as int]);
        let after = files_after(files, task, turns[0].done, turns[0].left);
        run(
            store,
            folder,
            texts,
            next,
            honest_report(after, task, turns[0]),
            after,
            turns.drop_first(),
        )
    }
}

/// For each name of `store` what `serde_json` writes for its record: the
/// texts that `write_out` works with.
pub open spec fn record_texts(store: Store) -> Seq<Option<Seq<char>>> {
    Seq::new(store.items.len(), |j: int| json_text(record_tree(store.items[j].entry)))
}

/// A step of `write_out` is a step of the run with the texts of the
/// records, so what is stated of the run holds of `write_out`.
pub proof fn lemma_write_out_steps_the_run(
    store: Store,
    folder: Seq<char>,
    state: Commit,
    event: CommitEvent,
)
    ensures
        commit_step(
            store,
            folder,
            state,
            event,
            if leads_to_write(state.stage, event) && state.next < store.items.len() {
                json_text(record_tree(store.items[state.next as int].entry))
            } else {
                None
            },
        ) == commit_step(store, folder, state, event, record_texts(store)[state.next as int]),
{
    if !leads_to_write(state.stage, event) || state.next >= store.items.len() {
        lemma_only_the_write_reads_the_text(
            store,
            folder,
            state,
            event,
            record_texts(store)[state.next as int],
        );
    }
}

/// What the file at `path` holds, if there is one.
pub open spec fn contents(files: Map<Seq<char>, Seq<char>>, path: Seq<char>) -> Option<Seq<char>> {
    if files.contains_key(path) {
        Some(files[path])
    } else {
        None
    }
}

/// The text that is written for a name whose record has the text `text`.
pub open spec fn text_of(text: Option<Seq<char>>) -> Seq<char> {
    match text {
        Some(text) => text,
        None => Seq::empty(),
    }
}

/// The record of the name at place `j` is safe in `files`, given the files
/// `first` that the commit began with.
pub open spec fn is_safe_at(
    store: Store,
    folder: Seq<char>,
    texts: Seq<Option<Seq<char>>>,
    first: Map<Seq<char>, Seq<char>>,
    files: Map<Seq<char>, Seq<char>>,
    j: int,
) -> bool {
    is_safe(
        files,
        record_path(folder, store.items[j].name),
        backup_path(folder, store.items[j].name),
        contents(first, record_path(folder, store.items[j].name)),
        text_of(texts[j]),
    )
}

/// The record and the backup of the name at place `j` are as the commit
/// found them.
pub open spec fn is_untouched_at(
    store: Store,
    folder: Seq<char>,
    first: Map<Seq<char>, Seq<char>>,
    files: Map<Seq<char>, Seq<char>>,
    j: int,
) -> bool {
    &&& contents(files, record_path(folder, store.items[j].name)) == contents(
        first,
        record_path(folder, store.items[j].name),
    )
    &&& contents(files, backup_path(folder, store.items[j].name)) == contents(
        first,
        backup_path(folder, store.items[j].name),
    )
}

/// The files are in order for a commit in `state` with `event` in hand:
/// nothing is touched before the first name; the names that the commit is
/// through with are safe, the name in hand is as an honest caller leaves
/// it, and the names to come are untouched.
pub open spec fn is_in_order(
    store: Store,
    folder: Seq<char>,
    texts: Seq<Option<Seq<char>>>,
    first: Map<Seq<char>, Seq<char>>,
    state: Commit,
    event: CommitEvent,
    files: Map<Seq<char>, Seq<char>>,
) -> bool {
    match state.stage {
        CommitStage::Idle | CommitStage::InspectingDir | CommitStage::CreatingDir => files
            == first,
        CommitStage::Closed => forall|j: int|
            0 <= j < store.items.len() ==> is_safe_at(store, folder, texts, first, files, j),
        _ => {
            &&& state.next < store.items.len()
            &&& forall|j: int|
                0 <= j < state.next ==> is_safe_at(store, folder, texts, first, files, j)
            &&& forall|j: int|
                state.next < j < store.items.len() ==> is_untouched_at(
                    store,
                    folder,
                    first,
                    files,
                    j,
                )
            &&& is_consistent(
                state.stage,
                event,
                files,
                record_path(folder, store.items[state.next as int].name),
                backup_path(folder, store.items[state.next as int].name),
                contents(first, record_path(folder, store.items[state.next as int].name)),
                text_of(texts[state.next as int]),
            )
        },
    }
}

/// Files that are in order keep every record safe.
pub proof fn lemma_order_is_safety(
    store: Store,
    folder: Seq<char>,
    texts: Seq<Option<Seq<char>>>,
    first: Map<Seq<char>, Seq<char>>,
    state: Commit,
    event: CommitEvent,
    files: Map<Seq<char>, Seq<char>>,
    j: int,
)
    requires
        is_in_order(store, folder, texts, first, state, event, files),
        0 <= j < store.items.len(),
    ensures
        is_safe_at(store, folder, texts, first, files, j),
{
    if state.stage != CommitStage::Idle && state.stage != CommitStage::InspectingDir && state.stage
        != CommitStage::CreatingDir && state.stage != CommitStage::Closed {
        if j > state.next {
            assert(is_untouched_at(store, folder, first, files, j));
        }
    }
}

/// One step of an honest caller keeps the files in order.
pub proof fn lemma_step_keeps_order(
    store: Store,
    folder: Seq<char>,
    texts: Seq<Option<Seq<char>>>,
    first: Map<Seq<char>, Seq<char>>,
    state: Commit,
    event: CommitEvent,
    files: Map<Seq<char>, Seq<char>>,
    turn: Turn,
)
    requires
        distinct_names(store.items),
        texts.len() == store.items.len() <= usize::MAX,
        is_in_order(store, folder, texts, first, state, event, files),
    ensures
        ({
            let (next, task) = commit_step(store, folder, state, event, texts[state.next as int]);
            let after = files_after(files, task, turn.done, turn.left);
            is_in_order(
                store,
                folder,
                texts,
                first,
                next,
                honest_report(after, task, turn),
                after,
            )
        }),
{
    let (next, task) = commit_step(store, folder, state, event, texts[state.next as int]);
    let after = files_after(files, task, turn.done, turn.left);
    let report = honest_report(after, task, turn);
    let n = store.items.len() as int;
    if state.stage == CommitStage::Idle || state.stage == CommitStage::InspectingDir || state.stage
        == CommitStage::CreatingDir {
        assert(after == files);
        assert forall|j: int| 0 <= j < n implies is_safe_at(
            store,
            folder,
            texts,
            first,
            after,
            j,
        ) && is_untouched_at(store, folder, first, after, j) by {}
    } else if state.stage == CommitStage::Closed {
        assert(after == files);
    } else {
        let i = state.next as int;
        let name = store.items[i].name;
        lemma_step_keeps_files_consistent(
            store,
            folder,
            state,
            event,
            texts[i],
            files,
            contents(first, record_path(folder, name)),
            text_of(texts[i]),
            turn.done,
            turn.left,
        );
        assert forall|j: int| 0 <= j < n && j != i implies contents(
            after,
            record_path(folder, store.items[j].name),
        ) == contents(files, record_path(folder, store.items[j].name)) && contents(
            after,
            backup_path(folder, store.items[j].name),
        ) == contents(files, backup_path(folder, store.items[j].name)) by {
            let other = store.items[j].name;
            assert(other != name);
            lemma_names_have_their_own_paths(folder, other, name);
            lemma_step_spares_other_files(
                store,
                folder,
                state,
                event,
                texts[i],
                files,
                turn.done,
                turn.left,
                record_path(folder, other),
            );
            lemma_step_spares_other_files(
                store,
                folder,
                state,
                event,
                texts[i],
                files,
                turn.done,
                turn.left,
                backup_path(folder, other),
            );
        }
        assert forall|j: int| 0 <= j < i implies is_safe_at(
            store,
            folder,
            texts,
            first,
            after,
            j,
        ) by {
            assert(is_safe_at(store, folder, texts, first, files, j));
        }
        assert forall|j: int| i < j < n implies is_untouched_at(store, folder, first, after, j) by {
            assert(is_untouched_at(store, folder, first, files, j));
        }
        assert(is_safe_at(store, folder, texts, first, after, i));
        assert forall|j: int| i < j < n implies is_safe_at(
            store,
            folder,
            texts,
            first,
            after,
            j,
        ) by {
            assert(is_untouched_at(store, folder, first, after, j));
        }
        if next.stage == CommitStage::ProbingRecord && next.next != state.next {
            assert(is_untouched_at(store, folder, first, after, i + 1));
        }
    }
}

/// A commit loses no record. Whatever an honest caller meets while it
/// carries a commit out, step after step, and wherever it stops: where a
/// name had a record when the commit began, that record is on disk whole,
/// in the record file or in the backup, unless the new record is there
/// whole.
pub proof fn lemma_commit_loses_no_record(
    store: Store,
    folder: Seq<char>,
    texts: Seq<Option<Seq<char>>>,
    first: Map<Seq<char>, Seq<char>>,
    turns: Seq<Turn>,
    j: int,
)
    requires
        distinct_names(store.items),
        texts.len() == store.items.len() <= usize::MAX,
        0 <= j < store.items.len(),
    ensures
        ({
            let begin = Commit { stage: CommitStage::Idle, next: 0, written: 0, pending: 0 };
            let end = run(store, folder, texts, begin, CommitEvent::Start, first, turns);
            is_safe_at(store, folder, texts, first, end.2, j)
        }),
{
    let begin = Commit { stage: CommitStage::Idle, next: 0, written: 0, pending: 0 };
    lemma_run_keeps_order(store, folder, texts, first, begin, CommitEvent::Start, first, turns);
    let end = run(store, folder, texts, begin, CommitEvent::Start, first, turns);
    lemma_order_is_safety(store, folder, texts, first, end.0, end.1, end.2, j);
}

/// Every step of an honest caller keeps the files in order.
pub proof fn lemma_run_keeps_order(
    store: Store,
    folder: Seq<char>,
    texts: Seq<Option<Seq<char>>>,
    first: Map<Seq<char>, Seq<char>>,
    state: Commit,
    event: CommitEvent,
    files: Map<Seq<char>, Seq<char>>,
    turns: Seq<Turn>,
)
    requires
        distinct_names(store.items),
        texts.len() == store.items.len() <= usize::MAX,
        is_in_order(store, folder, texts, first, state, event, files),
    ensures
        ({
            let end = run(store, folder, texts, state, event, files, turns);
            is_in_order(store, folder, texts, first, end.0, end.1, end.2)
        }),
    decreases turns.len(),
{
    if turns.len() > 0 {
        let (next, task) = commit_step(store, folder, state, event, texts[state.next as int]);
        let after = files_after(files, task, turns[0].done, turns[0].left);
        lemma_step_keeps_order(store, folder, texts, first, state, event, files, turns[0]);
        lemma_run_keeps_order(
            store,
            folder,
            texts,
            first,
            next,
            honest_report(after, task, turns[0]),
            after,
            turns.drop_first(),
        );
    }
}

/// The bytes of the records of the first `upto` names, counted as a commit
/// counts them.
pub open spec fn total_bytes(texts: Seq<Option<Seq<char>>>, upto: int) -> usize
    decreases upto,
{
    if upto <= 0 {
        0
    } else {
        capped_sum(total_bytes(texts, upto - 1), byte_length(text_of(texts[upto - 1])))
    }
}

/// The first `upto` names have their new records on disk, and the count
/// holds the bytes of those records.
pub open spec fn is_written_upto(
    store: Store,
    folder: Seq<char>,
    texts: Seq<Option<Seq<char>>>,
    state: Commit,
    files: Map<Seq<char>, Seq<char>>,
    upto: int,
) -> bool {
    &&& state.written == total_bytes(texts, upto)
    &&& forall|j: int|
        0 <= j < upto ==> holds(
            files,
            record_path(folder, #[trigger] store.items[j].name),
            text_of(texts[j]),
        )
}

/// The commit is on its way with nothing gone wrong: the report in hand is
/// one of success, and every name that the commit is through with has its
/// new record on disk and its bytes in the count.
pub open spec fn is_on_track(
    store: Store,
    folder: Seq<char>,
    texts: Seq<Option<Seq<char>>>,
    state: Commit,
    event: CommitEvent,
    files: Map<Seq<char>, Seq<char>>,
) -> bool {
    let i = state.next as int;
    let record = record_path(folder, store.items[i].name);
    match (state.stage, event) {
        (CommitStage::Idle, CommitEvent::Start) => true,
        (CommitStage::InspectingDir, CommitEvent::Dir(dir)) => dir != DirState::Other,
        (CommitStage::CreatingDir, CommitEvent::Done) => true,
        (CommitStage::ProbingRecord, CommitEvent::Exists(_))
        | (CommitStage::SavingOld, CommitEvent::Done) => i < store.items.len() && is_written_upto(
            store,
            folder,
            texts,
            state,
            files,
            i,
        ),
        (CommitStage::Writing, CommitEvent::Done) => {
            &&& i < store.items.len()
            &&& is_written_upto(store, folder, texts, state, files, i)
            &&& holds(files, record, text_of(texts[i]))
            &&& state.pending == byte_length(text_of(texts[i]))
        },
        (CommitStage::ProbingBackup, CommitEvent::Exists(_))
        | (CommitStage::RemovingBackup, CommitEvent::Done) => i < store.items.len()
            && is_written_upto(store, folder, texts, state, files, i + 1),
        (CommitStage::Closed, _) => is_written_upto(
            store,
            folder,
            texts,
            state,
            files,
            store.items.len() as int,
        ),
        _ => false,
    }
}

/// One step in which nothing goes wrong keeps the commit on track.
pub proof fn lemma_step_stays_on_track(
    store: Store,
    folder: Seq<char>,
    texts: Seq<Option<Seq<char>>>,
    state: Commit,
    event: CommitEvent,
    files: Map<Seq<char>, Seq<char>>,
    turn: Turn,
)
    requires
        distinct_names(store.items),
        texts.len() == store.items.len() <= usize::MAX,
        forall|j: int| 0 <= j < texts.len() ==> (#[trigger] texts[j]).is_some(),
        turn.done,
        turn.dir != DirState::Other,
        is_on_track(store, folder, texts, state, event, files),
    ensures
        ({
            let (next, task) = commit_step(store, folder, state, event, texts[state.next as int]);
            let after = files_after(files, task, turn.done, turn.left);
            is_on_track(store, folder, texts, next, honest_report(after, task, turn), after)
        }),
{
    let (next, task) = commit_step(store, folder, state, event, texts[state.next as int]);
    let after = files_after(files, task, turn.done, turn.left);
    let n = store.items.len() as int;
    let i = state.next as int;
    if state.stage != CommitStage::Idle && state.stage != CommitStage::InspectingDir && state.stage
        != CommitStage::CreatingDir && state.stage != CommitStage::Closed {
        let name = store.items[i].name;
        lemma_backup_is_another_path(folder, name);
        assert forall|j: int| 0 <= j < n && j != i implies contents(
            after,
            record_path(folder, #[trigger] store.items[j].name),
        ) == contents(files, record_path(folder, store.items[j].name)) by {
            let other = store.items[j].name;
            assert(other != name);
            lemma_names_have_their_own_paths(folder, other, name);
            lemma_step_spares_other_files(
                store,
                folder,
                state,
                event,
                texts[i],
                files,
                turn.done,
                turn.left,
                record_path(folder, other),
            );
        }
        assert(texts[i].is_some());
    }
}

/// Every step in which nothing goes wrong keeps the commit on track.
pub proof fn lemma_run_stays_on_track(
    store: Store,
    folder: Seq<char>,
    texts: Seq<Option<Seq<char>>>,
    state: Commit,
    event: CommitEvent,
    files: Map<Seq<char>, Seq<char>>,
    turns: Seq<Turn>,
)
    requires
        distinct_names(store.items),
        texts.len() == store.items.len() <= usize::MAX,
        forall|j: int| 0 <= j < texts.len() ==> (#[trigger] texts[j]).is_some(),
        forall|k: int|
            0 <= k < turns.len() ==> (#[trigger] turns[k]).done && turns[k].dir != DirState::Other,
        is_on_track(store, folder, texts, state, event, files),
    ensures
        ({
            let end = run(store, folder, texts, state, event, files, turns);
            is_on_track(store, folder, texts, end.0, end.1, end.2)
        }),
    decreases turns.len(),
{
    if turns.len() > 0 {
        let (next, task) = commit_step(store, folder, state, event, texts[state.next as int]);
        let after = files_after(files, task, turns[0].done, turns[0].left);
        lemma_step_stays_on_track(store, folder, texts, state, event, files, turns[0]);
        let rest = turns.drop_first();
        assert forall|k: int| 0 <= k < rest.len() implies (#[trigger] rest[k]).done && rest[k].dir
            != DirState::Other by {
            assert(rest[k] == turns[k + 1]);
        }
        lemma_run_stays_on_track(
            store,
            folder,
            texts,
            next,
            honest_report(after, task, turns[0]),
            after,
            rest,
        );
    }
}

/// A commit in which nothing goes wrong writes every record. Where every
/// record has a text, every action of the caller succeeds and the path of
/// the directory holds no file, a commit that has come to its end has left
/// the text of every name in its record file, and its count holds the
/// bytes of all the texts.
pub proof fn lemma_commit_writes_every_record(
    store: Store,
    folder: Seq<char>,
    texts: Seq<Option<Seq<char>>>,
    first: Map<Seq<char>, Seq<char>>,
    turns: Seq<Turn>,
)
    requires
        distinct_names(store.items),
        texts.len() == store.items.len() <= usize::MAX,
        forall|j: int| 0 <= j < texts.len() ==> (#[trigger] texts[j]).is_some(),
        forall|k: int|
            0 <= k < turns.len() ==> (#[trigger] turns[k]).done && turns[k].dir != DirState::Other,
    ensures
        ({
            let begin = Commit { stage: CommitStage::Idle, next: 0, written: 0, pending: 0 };
            let end = run(store, folder, texts, begin, CommitEvent::Start, first, turns);
            end.0.stage == CommitStage::Closed ==> is_written_upto(
                store,
                folder,
                texts,
                end.0,
                end.2,
                store.items.len() as int,
            )
        }),
{
    let begin = Commit { stage: CommitStage::Idle, next: 0, written: 0, pending: 0 };
    lemma_run_stays_on_track(store, folder, texts, begin, CommitEvent::Start, first, turns);
}

/// A registry that is committed and loaded again comes back as it was.
/// Where nothing goes wrong in the commit and it has come to its end, and
/// the directory then lists the record file of every name, in the order of
/// the registry, with what the commit left in it, loading gives the names
/// and entries of the registry back. This rests on one thing that is taken
/// for granted here: that `serde_json` writes a text for every record and
/// reads from that text the record of the same entry. The empty name is
/// left out: its record file stands for another name.
pub proof fn lemma_commit_then_load(
    store: Store,
    folder: Seq<char>,
    first: Map<Seq<char>, Seq<char>>,
    turns: Seq<Turn>,
    listing: Seq<Found>,
)
    requires
        distinct_names(store.items),
        store.items.len() <= usize::MAX,
        forall|j: int|
            0 <= j < store.items.len() ==> {
                &&& (#[trigger] store.items[j]).name.len() > 0
                &&& record_texts(store)[j] matches Some(text) && record_in(text) == Some(
                    store.items[j].entry,
                )
            },
        forall|k: int|
            0 <= k < turns.len() ==> (#[trigger] turns[k]).done && turns[k].dir != DirState::Other,
        run(
            store,
            folder,
            record_texts(store),
            Commit { stage: CommitStage::Idle, next: 0, written: 0, pending: 0 },
            CommitEvent::Start,
            first,
            turns,
        ).0.stage == CommitStage::Closed,
        listing.len() == store.items.len(),
        forall|j: int|
            0 <= j < store.items.len() ==> {
                &&& (#[trigger] listing[j]).file_name == Some(store.items[j].name + ".json"@)
                &&& listing[j].contents == contents(
                    run(
                        store,
                        folder,
                        record_texts(store),
                        Commit { stage: CommitStage::Idle, next: 0, written: 0, pending: 0 },
                        CommitEvent::Start,
                        first,
                        turns,
                    ).2,
                    record_path(folder, store.items[j].name),
                )
            },
    ensures
        loaded_items(listing) == store.items,
{
    let texts = record_texts(store);
    assert forall|j: int| 0 <= j < texts.len() implies (#[trigger] texts[j]).is_some() by {
        assert(store.items[j].name.len() > 0);
    }
    lemma_commit_writes_every_record(store, folder, texts, first, turns);
    assert forall|j: int| 0 <= j < store.items.len() implies {
        &&& (#[trigger] store.items[j]).name.len() > 0
        &&& listing[j].file_name == Some(store.items[j].name + ".json"@)
        &&& listing[j].contents matches Some(text) && record_in(text) == Some(
            store.items[j].entry,
        )
    } by {
        assert(listing[j].file_name == Some(store.items[j].name + ".json"@));
    }
    lemma_record_files_load_back(store.items, listing);
}

} // verus!
