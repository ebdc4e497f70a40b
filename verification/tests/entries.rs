use update_alternatives::alternative::Alternative;
use update_alternatives::alternative_list::AlternativeList;

fn targets_of(list: &AlternativeList) -> Vec<(String, i32)> {
    list.links().iter().map(|a| (a.target().to_string(), a.priority())).collect()
}

#[test]
fn from_parts_keeps_target_and_priority() {
    let a = Alternative::from_parts("/bin/vim", -3);
    assert_eq!(a.target(), "/bin/vim");
    assert_eq!(a.priority(), -3);
    assert_eq!(a.duplicate(), a);
}

#[test]
fn new_entry_is_empty() {
    let list = AlternativeList::new("/usr/local/bin/editor");
    assert_eq!(list.path(), "/usr/local/bin/editor");
    assert_eq!(list.num_links(), 0);
    assert!(list.links().is_empty());
    assert_eq!(list.best(), None);
}

#[test]
fn adding_the_same_candidate_twice_changes_nothing() {
    let mut list = AlternativeList::new("/usr/local/bin/editor");
    assert!(list.add_alternative(Alternative::from_parts("/bin/vim", 10)));
    assert!(!list.add_alternative(Alternative::from_parts("/bin/vim", 10)));
    assert_eq!(list.num_links(), 1);
    assert_eq!(targets_of(&list), vec![("/bin/vim".to_string(), 10)]);
}

#[test]
fn adding_a_known_target_updates_its_priority_in_place() {
    let mut list = AlternativeList::new("/usr/local/bin/editor");
    assert!(list.add_alternative(Alternative::from_parts("/bin/ed", 1)));
    assert!(list.add_alternative(Alternative::from_parts("/bin/vim", 10)));
    assert!(list.add_alternative(Alternative::from_parts("/bin/nano", 5)));
    assert!(list.add_alternative(Alternative::from_parts("/bin/vim", 20)));
    assert_eq!(list.num_links(), 3);
    assert_eq!(
        targets_of(&list),
        vec![
            ("/bin/ed".to_string(), 1),
            ("/bin/vim".to_string(), 20),
            ("/bin/nano".to_string(), 5),
        ]
    );
}

#[test]
fn removing_a_known_target_takes_only_it_out() {
    let mut list = AlternativeList::new("/usr/local/bin/editor");
    list.add_alternative(Alternative::from_parts("/bin/ed", 1));
    list.add_alternative(Alternative::from_parts("/bin/vim", 10));
    list.add_alternative(Alternative::from_parts("/bin/nano", 5));
    assert!(list.has_target("/bin/vim"));
    assert!(list.remove_alternative("/bin/vim"));
    assert!(!list.has_target("/bin/vim"));
    assert_eq!(
        targets_of(&list),
        vec![("/bin/ed".to_string(), 1), ("/bin/nano".to_string(), 5)]
    );
    assert_eq!(list.path(), "/usr/local/bin/editor");
}

#[test]
fn removing_an_unknown_target_is_a_no_op() {
    let mut list = AlternativeList::new("/usr/local/bin/editor");
    list.add_alternative(Alternative::from_parts("/bin/vim", 10));
    assert!(!list.remove_alternative("/bin/emacs"));
    assert_eq!(targets_of(&list), vec![("/bin/vim".to_string(), 10)]);
    let mut empty = AlternativeList::new("/usr/local/bin/pager");
    assert!(!empty.remove_alternative("/bin/less"));
    assert_eq!(empty.num_links(), 0);
}

#[test]
fn resolution_picks_the_highest_priority() {
    let mut list = AlternativeList::new("/usr/local/bin/x");
    list.add_alternative(Alternative::from_parts("A", 5));
    list.add_alternative(Alternative::from_parts("B", 10));
    list.add_alternative(Alternative::from_parts("C", 3));
    assert_eq!(list.best(), Some(1));
    assert_eq!(list.links()[1].target(), "B");
}

#[test]
fn resolution_picks_the_first_of_equal_priorities() {
    let mut list = AlternativeList::new("/usr/local/bin/x");
    list.add_alternative(Alternative::from_parts("A", 10));
    list.add_alternative(Alternative::from_parts("B", 10));
    for _ in 0..3 {
        assert_eq!(list.best(), Some(0));
    }
    assert_eq!(list.links()[0].target(), "A");
}

#[test]
fn resolution_works_on_negative_and_extreme_priorities() {
    let mut list = AlternativeList::new("/usr/local/bin/x");
    list.add_alternative(Alternative::from_parts("A", i32::MIN));
    assert_eq!(list.best(), Some(0));
    list.add_alternative(Alternative::from_parts("B", -1));
    assert_eq!(list.best(), Some(1));
    list.add_alternative(Alternative::from_parts("C", i32::MAX));
    list.add_alternative(Alternative::from_parts("D", i32::MAX));
    assert_eq!(list.best(), Some(2));
}

#[test]
fn an_updated_priority_changes_the_winner() {
    let mut list = AlternativeList::new("/usr/local/bin/x");
    list.add_alternative(Alternative::from_parts("A", 10));
    list.add_alternative(Alternative::from_parts("B", 5));
    assert_eq!(list.best(), Some(0));
    assert!(list.add_alternative(Alternative::from_parts("B", 11)));
    assert_eq!(list.best(), Some(1));
}
