use std::collections::BTreeMap;
use update_alternatives::alternative::Alternative;
use update_alternatives::alternative_db::AlternativeDb;
use update_alternatives::commit::{
    backup_file, record_file, Commit, CommitAction, CommitError, CommitEvent, CommitStage,
    DirState,
};
use update_alternatives::listing::FoundFile;

const VIM: &str = "{\"candidates\":[{\"priority\":10,\"target\":\"/bin/vim\"}],\"link_path\":\"/usr/local/bin/editor\"}";
const LESS: &str = "{\"candidates\":[{\"priority\":1,\"target\":\"/bin/less\"}],\"link_path\":\"/usr/local/bin/pager\"}";

struct Disk {
    dir: DirState,
    files: BTreeMap<String, String>,
    failing: Vec<String>,
    log: Vec<String>,
}

impl Disk {
    fn new(dir: DirState) -> Disk {
        Disk { dir, files: BTreeMap::new(), failing: Vec::new(), log: Vec::new() }
    }

    fn fails(&self, what: &str) -> bool {
        self.failing.iter().any(|f| f == what)
    }

    fn perform(&mut self, action: &CommitAction) -> CommitEvent {
        match action {
            CommitAction::InspectDir { path } => {
                if self.fails(&format!("inspect {}", path)) {
                    return CommitEvent::Failed;
                }
                CommitEvent::Dir(self.dir)
            }
            CommitAction::CreateDir { path } => {
                self.log.push(format!("mkdir {}", path));
                if self.fails(&format!("mkdir {}", path)) {
                    return CommitEvent::Failed;
                }
                self.dir = DirState::Directory;
                CommitEvent::Done
            }
            CommitAction::Probe { path } => CommitEvent::Exists(self.files.contains_key(path)),
            CommitAction::Rename { from, to } => {
                self.log.push(format!("rename {} {}", from, to));
                if self.fails(&format!("rename {}", from)) {
                    return CommitEvent::Failed;
                }
                match self.files.remove(from) {
                    Some(contents) => {
                        self.files.insert(to.clone(), contents);
                        CommitEvent::Done
                    }
                    None => CommitEvent::Failed,
                }
            }
            CommitAction::Write { path, contents } => {
                self.log.push(format!("write {}", path));
                if self.fails(&format!("write {}", path)) {
                    let half = contents.len() / 2;
                    self.files.insert(path.clone(), contents[..half].to_string());
                    return CommitEvent::Failed;
                }
                self.files.insert(path.clone(), contents.clone());
                CommitEvent::Done
            }
            CommitAction::Remove { path } => {
                self.log.push(format!("remove {}", path));
                if self.fails(&format!("remove {}", path)) {
                    return CommitEvent::Failed;
                }
                self.files.remove(path);
                CommitEvent::Done
            }
            CommitAction::Finished { .. } | CommitAction::Abort(_) => {
                panic!("nothing to perform")
            }
        }
    }
}

fn commit(db: &AlternativeDb, folder: &str, disk: &mut Disk) -> CommitAction {
    let (mut state, mut action) = db.write_out(folder, Commit::new(), CommitEvent::Start);
    loop {
        if let CommitAction::Finished { .. } | CommitAction::Abort(_) = action {
            return action;
        }
        let event = disk.perform(&action);
        let next = db.write_out(folder, state, event);
        state = next.0;
        action = next.1;
    }
}

fn editor_and_pager() -> AlternativeDb {
    let mut db = AlternativeDb::new("/usr/local/bin");
    db.add_alternative("editor", Alternative::from_parts("/bin/vim", 10));
    db.add_alternative("pager", Alternative::from_parts("/bin/less", 1));
    db
}

#[test]
fn paths_of_records_and_backups() {
    assert_eq!(record_file("/etc/alternatives", "editor"), "/etc/alternatives/editor.json");
    assert_eq!(backup_file("/etc/alternatives", "editor"), "/etc/alternatives/editor.json.old");
    assert_eq!(record_file("", ""), "/.json");
    assert_eq!(record_file("d", "a.b"), "d/a.b.json");
}

#[test]
fn a_commit_into_a_missing_directory_makes_it_and_writes_every_record() {
    let db = editor_and_pager();
    let mut disk = Disk::new(DirState::Missing);
    let end = commit(&db, "/etc/alternatives", &mut disk);
    assert_eq!(end, CommitAction::Finished { written: VIM.len() + LESS.len() });
    assert_eq!(disk.dir, DirState::Directory);
    assert_eq!(disk.files.get("/etc/alternatives/editor.json").unwrap(), VIM);
    assert_eq!(disk.files.get("/etc/alternatives/pager.json").unwrap(), LESS);
    assert_eq!(disk.files.len(), 2);
    assert_eq!(
        disk.log,
        vec![
            "mkdir /etc/alternatives",
            "write /etc/alternatives/editor.json",
            "write /etc/alternatives/pager.json",
        ]
    );
}

#[test]
fn a_commit_over_old_records_backs_them_up_and_removes_the_backups() {
    let db = editor_and_pager();
    let mut disk = Disk::new(DirState::Directory);
    disk.files.insert("/d/editor.json".to_string(), "old editor".to_string());
    let end = commit(&db, "/d", &mut disk);
    assert_eq!(end, CommitAction::Finished { written: VIM.len() + LESS.len() });
    assert_eq!(
        disk.log,
        vec![
            "rename /d/editor.json /d/editor.json.old",
            "write /d/editor.json",
            "remove /d/editor.json.old",
            "write /d/pager.json",
        ]
    );
    assert_eq!(disk.files.get("/d/editor.json").unwrap(), VIM);
    assert_eq!(disk.files.len(), 2);
}

#[test]
fn what_was_committed_loads_back() {
    let db = editor_and_pager();
    let mut disk = Disk::new(DirState::Directory);
    commit(&db, "/d", &mut disk);
    let files: Vec<FoundFile> = disk
        .files
        .iter()
        .map(|(path, contents)| FoundFile {
            file_name: Some(path.trim_start_matches("/d/").to_string()),
            contents: Some(contents.clone()),
        })
        .collect();
    let (loaded, _) = AlternativeDb::from_folder("/usr/local/bin", Some(&files));
    assert_eq!(loaded.num_alternatives(), 2);
    assert_eq!(loaded.alternatives("editor").unwrap().path(), "/usr/local/bin/editor");
    assert_eq!(loaded.alternatives("editor").unwrap().links()[0].target(), "/bin/vim");
    assert_eq!(loaded.alternatives("pager").unwrap().links()[0].priority(), 1);
}

#[test]
fn a_commit_of_an_empty_registry_writes_nothing() {
    let db = AlternativeDb::new("/l");
    let mut disk = Disk::new(DirState::Directory);
    assert_eq!(commit(&db, "/d", &mut disk), CommitAction::Finished { written: 0 });
    assert!(disk.log.is_empty());
}

#[test]
fn an_entry_without_candidates_is_still_written() {
    let mut db = AlternativeDb::new("/l");
    db.add_alternative("a", Alternative::from_parts("/1", 1));
    db.remove_alternative("a", "/1");
    let mut disk = Disk::new(DirState::Directory);
    let text = "{\"candidates\":[],\"link_path\":\"/l/a\"}";
    assert_eq!(commit(&db, "/d", &mut disk), CommitAction::Finished { written: text.len() });
    assert_eq!(disk.files.get("/d/a.json").unwrap(), text);
}

#[test]
fn a_path_that_is_no_directory_gives_the_commit_up() {
    let db = editor_and_pager();
    let mut disk = Disk::new(DirState::Other);
    assert_eq!(
        commit(&db, "/d", &mut disk),
        CommitAction::Abort(CommitError::NotADirectory { path: "/d".to_string() })
    );
    assert!(disk.log.is_empty());
}

#[test]
fn a_directory_that_cannot_be_made_gives_the_commit_up() {
    let db = editor_and_pager();
    let mut disk = Disk::new(DirState::Missing);
    disk.failing.push("mkdir /d".to_string());
    assert_eq!(
        commit(&db, "/d", &mut disk),
        CommitAction::Abort(CommitError::NoDirectory { path: "/d".to_string() })
    );
    let mut blind = Disk::new(DirState::Directory);
    blind.failing.push("inspect /d".to_string());
    assert_eq!(
        commit(&db, "/d", &mut blind),
        CommitAction::Abort(CommitError::NoDirectory { path: "/d".to_string() })
    );
}

#[test]
fn a_record_that_cannot_be_backed_up_is_passed_over() {
    let db = editor_and_pager();
    let mut disk = Disk::new(DirState::Directory);
    disk.files.insert("/d/editor.json".to_string(), "old editor".to_string());
    disk.failing.push("rename /d/editor.json".to_string());
    assert_eq!(commit(&db, "/d", &mut disk), CommitAction::Finished { written: LESS.len() });
    assert_eq!(disk.files.get("/d/editor.json").unwrap(), "old editor");
    assert_eq!(disk.files.get("/d/pager.json").unwrap(), LESS);
    assert_eq!(
        disk.log,
        vec!["rename /d/editor.json /d/editor.json.old", "write /d/pager.json"]
    );
}

#[test]
fn an_interrupted_write_is_recovered_from_the_backup() {
    let db = editor_and_pager();
    let mut disk = Disk::new(DirState::Directory);
    disk.files.insert("/d/editor.json".to_string(), "old editor".to_string());
    disk.failing.push("write /d/editor.json".to_string());
    assert_eq!(commit(&db, "/d", &mut disk), CommitAction::Finished { written: LESS.len() });
    assert_eq!(disk.files.get("/d/editor.json").unwrap(), "old editor");
    assert_eq!(disk.files.get("/d/editor.json.old"), None);
    assert_eq!(disk.files.get("/d/pager.json").unwrap(), LESS);
    assert_eq!(
        disk.log,
        vec![
            "rename /d/editor.json /d/editor.json.old",
            "write /d/editor.json",
            "rename /d/editor.json.old /d/editor.json",
            "write /d/pager.json",
        ]
    );
}

#[test]
fn a_crash_in_the_write_leaves_the_old_record_in_the_backup() {
    let db = editor_and_pager();
    let mut disk = Disk::new(DirState::Directory);
    disk.files.insert("/d/editor.json".to_string(), "old editor".to_string());
    let mut state = Commit::new();
    let mut event = CommitEvent::Start;
    loop {
        let (next, action) = db.write_out("/d", state, event);
        state = next;
        if let CommitAction::Write { path, contents } = &action {
            disk.files.insert(path.clone(), contents[..3].to_string());
            break;
        }
        event = disk.perform(&action);
    }
    assert_eq!(disk.files.get("/d/editor.json").unwrap(), "{\"c");
    assert_eq!(disk.files.get("/d/editor.json.old").unwrap(), "old editor");
    let restore = db.write_out("/d", state, CommitEvent::Failed).1;
    assert_eq!(
        restore,
        CommitAction::Rename {
            from: "/d/editor.json.old".to_string(),
            to: "/d/editor.json".to_string()
        }
    );
    assert_eq!(disk.perform(&restore), CommitEvent::Done);
    assert_eq!(disk.files.get("/d/editor.json").unwrap(), "old editor");
}

#[test]
fn a_failed_write_that_cannot_be_undone_gives_the_commit_up() {
    let db = editor_and_pager();
    let mut disk = Disk::new(DirState::Directory);
    disk.files.insert("/d/editor.json".to_string(), "old editor".to_string());
    disk.failing.push("write /d/editor.json".to_string());
    disk.failing.push("rename /d/editor.json.old".to_string());
    assert_eq!(
        commit(&db, "/d", &mut disk),
        CommitAction::Abort(CommitError::WriteFailed { path: "/d/editor.json".to_string() })
    );
    assert_eq!(disk.files.get("/d/editor.json.old").unwrap(), "old editor");
    assert_eq!(disk.files.get("/d/pager.json"), None);
}

#[test]
fn a_failed_write_of_a_new_record_has_nothing_to_fall_back_on() {
    let db = editor_and_pager();
    let mut disk = Disk::new(DirState::Directory);
    disk.failing.push("write /d/editor.json".to_string());
    assert_eq!(
        commit(&db, "/d", &mut disk),
        CommitAction::Abort(CommitError::WriteFailed { path: "/d/editor.json".to_string() })
    );
}

#[test]
fn a_backup_that_cannot_be_removed_does_not_stop_the_commit() {
    let db = editor_and_pager();
    let mut disk = Disk::new(DirState::Directory);
    disk.files.insert("/d/editor.json".to_string(), "old editor".to_string());
    disk.failing.push("remove /d/editor.json.old".to_string());
    assert_eq!(
        commit(&db, "/d", &mut disk),
        CommitAction::Finished { written: VIM.len() + LESS.len() }
    );
    assert_eq!(disk.files.get("/d/editor.json").unwrap(), VIM);
    assert_eq!(disk.files.get("/d/editor.json.old").unwrap(), "old editor");
}

#[test]
fn a_backup_left_by_an_earlier_run_is_removed_after_the_write() {
    let db = editor_and_pager();
    let mut disk = Disk::new(DirState::Directory);
    disk.files.insert("/d/pager.json.old".to_string(), "stale".to_string());
    assert_eq!(
        commit(&db, "/d", &mut disk),
        CommitAction::Finished { written: VIM.len() + LESS.len() }
    );
    assert_eq!(disk.files.get("/d/pager.json.old"), None);
    assert_eq!(disk.files.len(), 2);
}

#[test]
fn a_step_with_the_text_in_hand_writes_that_text() {
    let db = editor_and_pager();
    let probing = Commit { stage: CommitStage::ProbingRecord, next: 1, written: 7, pending: 0 };
    let (state, action) =
        db.commit_step("/d", probing, CommitEvent::Exists(false), Some("h\u{e9}llo".to_string()));
    assert_eq!(
        action,
        CommitAction::Write { path: "/d/pager.json".to_string(), contents: "h\u{e9}llo".to_string() }
    );
    assert_eq!(state, Commit { stage: CommitStage::Writing, next: 1, written: 7, pending: 6 });
    let (state, action) = db.commit_step("/d", state, CommitEvent::Done, None);
    assert_eq!(action, CommitAction::Probe { path: "/d/pager.json.old".to_string() });
    assert_eq!(
        state,
        Commit { stage: CommitStage::ProbingBackup, next: 1, written: 13, pending: 0 }
    );
    let (state, action) = db.commit_step("/d", state, CommitEvent::Exists(false), None);
    assert_eq!(action, CommitAction::Finished { written: 13 });
    assert_eq!(state, Commit { stage: CommitStage::Closed, next: 2, written: 13, pending: 0 });
}

#[test]
fn a_step_without_a_text_goes_on_as_after_a_failed_write() {
    let db = editor_and_pager();
    let saving = Commit { stage: CommitStage::SavingOld, next: 0, written: 0, pending: 0 };
    let (state, action) = db.commit_step("/d", saving, CommitEvent::Done, None);
    assert_eq!(
        action,
        CommitAction::Rename {
            from: "/d/editor.json.old".to_string(),
            to: "/d/editor.json".to_string()
        }
    );
    assert_eq!(state.stage, CommitStage::Restoring);
}

#[test]
fn the_count_of_bytes_stops_at_the_largest_number() {
    let db = editor_and_pager();
    let writing =
        Commit { stage: CommitStage::Writing, next: 0, written: usize::MAX - 2, pending: 5 };
    let (state, _) = db.commit_step("/d", writing, CommitEvent::Done, None);
    assert_eq!(state.written, usize::MAX);
    let exact = Commit { stage: CommitStage::Writing, next: 0, written: usize::MAX - 5, pending: 5 };
    assert_eq!(db.commit_step("/d", exact, CommitEvent::Done, None).0.written, usize::MAX);
    let below = Commit { stage: CommitStage::Writing, next: 0, written: 10, pending: 5 };
    assert_eq!(db.commit_step("/d", below, CommitEvent::Done, None).0.written, 15);
}

#[test]
fn a_report_out_of_turn_closes_the_commit() {
    let db = editor_and_pager();
    let out_of_turn = CommitAction::Abort(CommitError::OutOfTurn);
    assert_eq!(
        Commit::new(),
        Commit { stage: CommitStage::Idle, next: 0, written: 0, pending: 0 }
    );
    assert_eq!(db.write_out("/d", Commit::new(), CommitEvent::Done).1, out_of_turn);
    let (inspecting, action) = db.write_out("/d", Commit::new(), CommitEvent::Start);
    assert_eq!(action, CommitAction::InspectDir { path: "/d".to_string() });
    assert_eq!(db.write_out("/d", inspecting, CommitEvent::Exists(true)).1, out_of_turn);
    let (probing, action) =
        db.write_out("/d", inspecting, CommitEvent::Dir(DirState::Directory));
    assert_eq!(action, CommitAction::Probe { path: "/d/editor.json".to_string() });
    let (closed, action) = db.write_out("/d", probing, CommitEvent::Done);
    assert_eq!(action, out_of_turn);
    assert_eq!(closed.stage, CommitStage::Closed);
    for event in [
        CommitEvent::Start,
        CommitEvent::Dir(DirState::Directory),
        CommitEvent::Exists(false),
        CommitEvent::Done,
        CommitEvent::Failed,
    ] {
        let (state, action) = db.write_out("/d", closed, event);
        assert_eq!(action, out_of_turn);
        assert_eq!(state.stage, CommitStage::Closed);
    }
    let beyond = Commit { stage: CommitStage::Writing, next: 9, written: 0, pending: 0 };
    assert_eq!(db.write_out("/d", beyond, CommitEvent::Done).1, out_of_turn);
}
