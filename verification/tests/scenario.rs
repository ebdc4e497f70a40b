use std::collections::BTreeMap;
use update_alternatives::alternative::Alternative;
use update_alternatives::alternative_db::AlternativeDb;
use update_alternatives::commit::{Commit, CommitAction, CommitEvent, DirState};
use update_alternatives::links::{LinkAction, LinkEvent, LinkPlan, LinkState, LinkSync};
use update_alternatives::listing::FoundFile;

struct Machine {
    has_records_dir: bool,
    files: BTreeMap<String, String>,
    links: BTreeMap<String, String>,
}

fn commit_all(db: &AlternativeDb, folder: &str, machine: &mut Machine) -> usize {
    let (mut state, mut action) = db.write_out(folder, Commit::new(), CommitEvent::Start);
    loop {
        let event = match &action {
            CommitAction::InspectDir { .. } => CommitEvent::Dir(if machine.has_records_dir {
                DirState::Directory
            } else {
                DirState::Missing
            }),
            CommitAction::CreateDir { .. } => {
                machine.has_records_dir = true;
                CommitEvent::Done
            }
            CommitAction::Probe { path } => CommitEvent::Exists(machine.files.contains_key(path)),
            CommitAction::Rename { from, to } => {
                let contents = machine.files.remove(from).unwrap();
                machine.files.insert(to.clone(), contents);
                CommitEvent::Done
            }
            CommitAction::Write { path, contents } => {
                machine.files.insert(path.clone(), contents.clone());
                CommitEvent::Done
            }
            CommitAction::Remove { path } => {
                machine.files.remove(path);
                CommitEvent::Done
            }
            CommitAction::Finished { written } => return *written,
            CommitAction::Abort(error) => panic!("commit given up: {:?}", error),
        };
        let next = db.write_out(folder, state, event);
        state = next.0;
        action = next.1;
    }
}

fn link_all(db: &AlternativeDb, machine: &mut Machine) -> Vec<String> {
    let mut created = Vec::new();
    let (mut state, mut action) = db.write_links(LinkSync::new(), LinkEvent::Start);
    loop {
        let event = match &action {
            LinkAction::Inspect { path } => LinkEvent::Found(match machine.links.get(path) {
                Some(target) => LinkState::Link(target.clone()),
                None => LinkState::Missing,
            }),
            LinkAction::Apply { path, plan } => {
                match plan {
                    LinkPlan::Create { target } | LinkPlan::ReplaceFile { target } => {
                        machine.links.insert(path.clone(), target.clone());
                        created.push(path.clone());
                    }
                    other => panic!("not expected: {:?}", other),
                }
                LinkEvent::Done
            }
            LinkAction::Finished => return created,
            LinkAction::Abort(error) => panic!("link run given up: {:?}", error),
        };
        let next = db.write_links(state, event);
        state = next.0;
        action = next.1;
    }
}

fn reload(machine: &Machine, folder: &str) -> AlternativeDb {
    let prefix = format!("{}/", folder);
    let files: Vec<FoundFile> = machine
        .files
        .iter()
        .map(|(path, contents)| FoundFile {
            file_name: path.strip_prefix(&prefix).map(|name| name.to_string()),
            contents: Some(contents.clone()),
        })
        .collect();
    AlternativeDb::from_folder("/usr/local/bin", Some(&files)).0
}

#[test]
fn add_add_list_commit_and_sync() {
    let mut machine =
        Machine { has_records_dir: false, files: BTreeMap::new(), links: BTreeMap::new() };
    let (mut db, _) = AlternativeDb::from_folder("/usr/local/bin", None);

    assert!(db.add_alternative("editor", Alternative::from_parts("/bin/vim", 10)));
    assert!(db.add_alternative("editor", Alternative::from_parts("/bin/nano", 5)));

    let list = db.alternatives("editor").unwrap();
    assert_eq!(list.num_links(), 2);
    assert_eq!(list.links()[0], Alternative::from_parts("/bin/vim", 10));
    assert_eq!(list.links()[1], Alternative::from_parts("/bin/nano", 5));

    let text = "{\"candidates\":[{\"priority\":10,\"target\":\"/bin/vim\"},{\"priority\":5,\"target\":\"/bin/nano\"}],\"link_path\":\"/usr/local/bin/editor\"}";
    assert_eq!(commit_all(&db, "/etc/alternatives", &mut machine), text.len());
    assert_eq!(machine.files.get("/etc/alternatives/editor.json").unwrap(), text);
    assert_eq!(machine.files.len(), 1);

    assert_eq!(link_all(&db, &mut machine), vec!["/usr/local/bin/editor"]);
    assert_eq!(machine.links.get("/usr/local/bin/editor").unwrap(), "/bin/vim");
    assert_eq!(machine.links.len(), 1);
}

#[test]
fn a_higher_priority_added_later_moves_the_link() {
    let mut machine =
        Machine { has_records_dir: true, files: BTreeMap::new(), links: BTreeMap::new() };
    let mut db = AlternativeDb::new("/usr/local/bin");
    db.add_alternative("editor", Alternative::from_parts("/bin/vim", 10));
    commit_all(&db, "/etc/alternatives", &mut machine);
    link_all(&db, &mut machine);

    let mut db = reload(&machine, "/etc/alternatives");
    assert!(db.add_alternative("editor", Alternative::from_parts("/bin/emacs", 20)));
    commit_all(&db, "/etc/alternatives", &mut machine);
    assert_eq!(link_all(&db, &mut machine), vec!["/usr/local/bin/editor"]);
    assert_eq!(machine.links.get("/usr/local/bin/editor").unwrap(), "/bin/emacs");

    let mut db = reload(&machine, "/etc/alternatives");
    assert!(db.remove_alternative("editor", "/bin/emacs"));
    commit_all(&db, "/etc/alternatives", &mut machine);
    link_all(&db, &mut machine);
    assert_eq!(machine.links.get("/usr/local/bin/editor").unwrap(), "/bin/vim");
    assert_eq!(machine.files.len(), 1);
}

#[test]
fn a_mutation_that_changes_nothing_needs_no_commit() {
    let mut db = AlternativeDb::new("/usr/local/bin");
    assert!(db.add_alternative("editor", Alternative::from_parts("/bin/vim", 10)));
    assert!(!db.add_alternative("editor", Alternative::from_parts("/bin/vim", 10)));
    assert!(!db.remove_alternative("editor", "/bin/nano"));
    assert!(!db.remove_alternative("pager", "/bin/less"));
}
