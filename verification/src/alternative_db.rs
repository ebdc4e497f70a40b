//! The registry: every link name with its entry.

use crate::alternative::{Alternative, Candidate};
use crate::alternative_list::{has_target, with_candidate, without_target, AlternativeList, Entry};
use crate::listing::{
    found_in, lemma_record_file_is_loaded, reading_of, record_in, record_name, Found, FoundFile,
    LoadOutcome, Reading,
};
use crate::record::RecordError;
use vstd::prelude::*;
use vstd::string::StringExecFns;

verus! {

/// A name with its entry, as plain values.
pub struct Named {
    pub name: Seq<char>,
    pub entry: Entry,
}

/// The registry as plain values: the directory that new links go to, and the
/// named entries in the order in which the registry walks them.
pub struct Store {
    pub link_root: Seq<char>,
    pub items: Seq<Named>,
}

/// No two items carry the same name.
pub open spec fn distinct_names(items: Seq<Named>) -> bool {
    forall|i: int, j: int| 0 <= i < j < items.len() ==> items[i].name != items[j].name
}

/// Where the link of `name` goes unless its record says otherwise.
pub open spec fn default_link(link_root: Seq<char>, name: Seq<char>) -> Seq<char> {
    link_root + "/"@ + name
}

/// Some item carries `name`.
pub open spec fn has_name(items: Seq<Named>, name: Seq<char>) -> bool {
    exists|i: int| 0 <= i < items.len() && items[i].name == name
}

/// The place of the item that carries `name`; meaningful where `has_name` holds.
pub open spec fn place_of(items: Seq<Named>, name: Seq<char>) -> int {
    choose|i: int| 0 <= i < items.len() && items[i].name == name
}

/// The items after the record of a name was loaded: the record takes the
/// place of an earlier one of the same name, and comes last otherwise.
pub open spec fn load_into(items: Seq<Named>, named: Named) -> Seq<Named> {
    if has_name(items, named.name) {
        items.update(place_of(items, named.name), named)
    } else {
        items.push(named)
    }
}

/// The items that the files of a directory give, taken in their order: each
/// file that holds the record of a name brings it in, every other file is
/// passed over.
pub open spec fn loaded_items(files: Seq<Found>) -> Seq<Named>
    decreases files.len(),
{
    if files.len() == 0 {
        Seq::empty()
    } else {
        let rest = loaded_items(files.drop_last());
        match reading_of(files.last()) {
            Reading::Loaded(named) => load_into(rest, named),
            _ => rest,
        }
    }
}

impl Store {
    /// Some item carries `name`.
    pub open spec fn has(self, name: Seq<char>) -> bool {
        has_name(self.items, name)
    }

    /// The place of the item that carries `name`; meaningful where `has` holds.
    pub open spec fn place(self, name: Seq<char>) -> int {
        place_of(self.items, name)
    }

    /// The entry of `name`; meaningful where `has` holds.
    pub open spec fn entry(self, name: Seq<char>) -> Entry {
        self.items[self.place(name)].entry
    }

    /// The registry after `c` was added under `name`: a known name has the
    /// candidate added to its entry, a new name comes last with an entry
    /// at the default link path that holds `c` alone.
    pub open spec fn with_added(self, name: Seq<char>, c: Candidate) -> Store {
        if self.has(name) {
            let p = self.place(name);
            let entry = Entry {
                link_path: self.items[p].entry.link_path,
                candidates: with_candidate(self.items[p].entry.candidates, c),
            };
            Store { link_root: self.link_root, items: self.items.update(p, Named { name, entry }) }
        } else {
            let entry = Entry {
                link_path: default_link(self.link_root, name),
                candidates: seq![c],
            };
            Store { link_root: self.link_root, items: self.items.push(Named { name, entry }) }
        }
    }

    /// The registry after the candidate that points at `target` was taken
    /// out of the entry of `name`. An unknown name leaves it as it is.
    pub open spec fn with_removed(self, name: Seq<char>, target: Seq<char>) -> Store {
        if self.has(name) {
            let p = self.place(name);
            let entry = Entry {
                link_path: self.items[p].entry.link_path,
                candidates: without_target(self.items[p].entry.candidates, target),
            };
            Store { link_root: self.link_root, items: self.items.update(p, Named { name, entry }) }
        } else {
            self
        }
    }
}

/// The size to reserve for what an iterator will give, from its size hint:
/// the upper bound where there is one, else the lower bound.
pub fn estimate_size(lower_bound: usize, upper_bound: Option<usize>) -> (size: usize)
    ensures
        size == match upper_bound {
            Some(v) => v,
            None => lower_bound,
        },
{
    match upper_bound {
        Some(v) => v,
        None => lower_bound,
    }
}

/// A name and the entry that belongs to it.
#[derive(Debug)]
struct Slot {
    name: String,
    list: AlternativeList,
}

impl View for Slot {
    type V = Named;

    closed spec fn view(&self) -> Named {
        Named { name: self.name@, entry: self.list@ }
    }
}

/// The items that a vector of slots stands for.
spec fn items_of(slots: Seq<Slot>) -> Seq<Named> {
    slots.map_values(|s: Slot| s@)
}

/// The registry of all names. No name occurs twice.
#[derive(Debug)]
pub struct AlternativeDb {
    link_root: String,
    slots: Vec<Slot>,
}

impl View for AlternativeDb {
    type V = Store;

    closed spec fn view(&self) -> Store {
        Store { link_root: self.link_root@, items: items_of(self.slots@) }
    }
}

impl AlternativeDb {
    #[verifier::type_invariant]
    spec fn well_formed(self) -> bool {
        distinct_names(items_of(self.slots@))
    }

    /// A registry without names whose new links go to `link_root`.
    pub fn new(link_root: &str) -> (made: AlternativeDb)
        ensures
            made@.link_root == link_root@,
            made@.items == Seq::<Named>::empty(),
    {
        AlternativeDb { link_root: link_root.to_owned(), slots: Vec::new() }
    }

    /// Reads one file of the directory: the slot that its record fills, or
    /// why it is passed over.
    fn read_file(file: &FoundFile) -> (read: Result<Slot, LoadOutcome>)
        ensures
            match read {
                Ok(slot) => reading_of(file@) == Reading::Loaded(slot@),
                Err(outcome) => !(outcome is Loaded) && outcome.reports(reading_of(file@)),
            },
    {
        let file_name = match &file.file_name {
            Some(file_name) => file_name,
            None => return Err(LoadOutcome::NoName),
        };
        let name = match record_name(file_name.as_str()) {
            Some(name) => name,
            None => return Err(LoadOutcome::NoName),
        };
        let text = match &file.contents {
            Some(text) => text,
            None => return Err(LoadOutcome::Unreadable),
        };
        match AlternativeList::from_text(text.as_str()) {
            Ok(list) => Ok(Slot { name, list }),
            Err(RecordError::Syntax(error)) => Err(LoadOutcome::NotJson { message: error.message }),
            Err(RecordError::Malformed) => Err(LoadOutcome::Malformed),
        }
    }

    /// Loads the registry from what was found in the directory of records;
    /// `listing` is `None` where there is no such directory, which gives a
    /// registry without names. A file that does not hold the record of a
    /// name is passed over and the others are still loaded. The second
    /// result tells, file by file, what became of it.
    pub fn from_folder(link_root: &str, listing: Option<&Vec<FoundFile>>) -> (made: (
        AlternativeDb,
        Vec<LoadOutcome>,
    ))
        ensures
            match listing {
                Some(files) => {
                    &&& made.0@.link_root == link_root@
                    &&& made.0@.items == loaded_items(found_in(files@))
                    &&& made.1.len() == files.len()
                    &&& forall|i: int|
                        0 <= i < files.len() ==> (#[trigger] made.1[i]).reports(
                            reading_of(files[i]@),
                        )
                },
                None => {
                    &&& made.0@.link_root == link_root@
                    &&& made.0@.items == Seq::<Named>::empty()
                    &&& made.1.len() == 0
                },
            },
    {
        let files = match listing {
            Some(files) => files,
            None => return (AlternativeDb::new(link_root), Vec::new()),
        };
        let ghost found = found_in(files@);
        let mut slots: Vec<Slot> = Vec::with_capacity(
            estimate_size(files.len(), Some(files.len())),
        );
        let mut report: Vec<LoadOutcome> = Vec::with_capacity(files.len());
        let mut i: usize = 0;
        while i < files.len()
            invariant
                i <= files.len(),
                found == found_in(files@),
                distinct_names(items_of(slots@)),
                items_of(slots@) == loaded_items(found.take(i as int)),
                report.len() == i,
                forall|k: int| 0 <= k < i ==> (#[trigger] report[k]).reports(reading_of(files[k]@)),
            decreases files.len() - i,
        {
            let ghost before = loaded_items(found.take(i as int));
            assert(found.take(i as int + 1).drop_last() == found.take(i as int));
            assert(found.take(i as int + 1).last() == files[i as int]@);
            match AlternativeDb::read_file(&files[i]) {
                Ok(slot) => {
                    let ghost named = slot@;
                    proof {
                        lemma_load_keeps_names_distinct(before, named);
                    }
                    let outcome = LoadOutcome::Loaded {
                        name: slot.name.clone(),
                        candidates: slot.list.num_links(),
                    };
                    match AlternativeDb::find_slot(&slots, &slot.name) {
                        Some(p) => {
                            slots[p] = slot;
                        },
                        None => {
                            slots.push(slot);
                        },
                    }
                    assert(items_of(slots@) == load_into(before, named));
                    report.push(outcome);
                },
                Err(outcome) => {
                    report.push(outcome);
                },
            }
            i += 1;
        }
        assert(found.take(i as int) == found);
        (AlternativeDb { link_root: link_root.to_owned(), slots }, report)
    }

    /// The place in `slots` of the slot that carries `name`, if there is one.
    fn find_slot(slots: &Vec<Slot>, name: &String) -> (found: Option<usize>)
        requires
            distinct_names(items_of(slots@)),
        ensures
            match found {
                Some(i) => i < slots.len() && has_name(items_of(slots@), name@) && place_of(
                    items_of(slots@),
                    name@,
                ) == i,
                None => !has_name(items_of(slots@), name@),
            },
    {
        let mut i: usize = 0;
        while i < slots.len()
            invariant
                i <= slots.len(),
                distinct_names(items_of(slots@)),
                forall|j: int| 0 <= j < i ==> items_of(slots@)[j].name != name@,
            decreases slots.len() - i,
        {
            if slots[i].name == *name {
                proof {
                    lemma_place(items_of(slots@), name@, i as int);
                }
                return Some(i);
            }
            i += 1;
        }
        None
    }

    /// The number of names.
    pub fn num_alternatives(&self) -> (n: usize)
        ensures
            n == self@.items.len(),
            distinct_names(self@.items),
    {
        proof {
            use_type_invariant(self);
        }
        self.slots.len()
    }

    /// The name and the entry at place `i` of the order in which the
    /// registry walks its names, if there are that many.
    pub fn at(&self, i: usize) -> (found: Option<(&str, &AlternativeList)>)
        ensures
            self@.items.len() <= usize::MAX,
            match found {
                Some((name, list)) => i < self@.items.len() && self@.items[i as int] == (Named {
                    name: name@,
                    entry: list@,
                }),
                None => i >= self@.items.len(),
            },
    {
        if i < self.slots.len() {
            Some((self.slots[i].name.as_str(), &self.slots[i].list))
        } else {
            None
        }
    }

    /// The directory that the links of new names go to.
    pub fn link_root(&self) -> (root: &str)
        ensures
            root@ == self@.link_root,
    {
        self.link_root.as_str()
    }

    /// The place of the slot that carries `name`, if there is one.
    fn find(&self, name: &String) -> (found: Option<usize>)
        ensures
            match found {
                Some(i) => i < self@.items.len() && self@.has(name@) && self@.place(name@) == i,
                None => !self@.has(name@),
            },
    {
        proof {
            use_type_invariant(self);
        }
        AlternativeDb::find_slot(&self.slots, name)
    }

    /// Whether `name` is known.
    pub fn has_alternatives(&self, name: &str) -> (known: bool)
        ensures
            known == self@.has(name@),
    {
        let wanted = name.to_owned();
        self.find(&wanted).is_some()
    }

    /// The entry of `name`, if the name is known.
    pub fn alternatives(&self, name: &str) -> (found: Option<&AlternativeList>)
        ensures
            match found {
                Some(list) => self@.has(name@) && list@ == self@.entry(name@),
                None => !self@.has(name@),
            },
    {
        let wanted = name.to_owned();
        match self.find(&wanted) {
            Some(i) => Some(&self.slots[i].list),
            None => None,
        }
    }

    /// Adds a candidate under `name`. An unknown name first gets an empty
    /// entry whose link path is the link root, a slash and the name. The
    /// result tells whether the registry changed.
    pub fn add_alternative(&mut self, name: &str, to_add: Alternative) -> (changed: bool)
        ensures
            final(self)@ == old(self)@.with_added(name@, to_add@),
            changed == !(old(self)@.has(name@) && old(self)@.entry(name@).candidates.contains(
                to_add@,
            )),
    {
        proof {
            use_type_invariant(&*self);
        }
        let ghost before = self@;
        let wanted = name.to_owned();
        let found = self.find(&wanted);
        let mut slots: Vec<Slot> = Vec::new();
        std::mem::swap(&mut self.slots, &mut slots);
        assert(items_of(slots@) == before.items);
        let changed = match found {
            Some(i) => {
                let changed = slots[i].list.add_alternative(to_add);
                assert(items_of(slots@) == before.with_added(name@, to_add@).items);
                assert(distinct_names(items_of(slots@))) by {
                    lemma_add_keeps_names_distinct(before, name@, to_add@);
                }
                changed
            },
            None => {
                let mut path = self.link_root.clone();
                path.append("/");
                path.append(name);
                let mut list = AlternativeList::new(path.as_str());
                list.add_alternative(to_add);
                slots.push(Slot { name: wanted, list });
                assert(list@.candidates == seq![to_add@]);
                assert(items_of(slots@) == before.with_added(name@, to_add@).items);
                assert(distinct_names(items_of(slots@))) by {
                    lemma_add_keeps_names_distinct(before, name@, to_add@);
                }
                true
            },
        };
        std::mem::swap(&mut self.slots, &mut slots);
        changed
    }

    /// Takes the candidate that points at `target` out of the entry of
    /// `name`. The result tells whether there was one; an unknown name or an
    /// unknown target leaves the registry as it was.
    pub fn remove_alternative(&mut self, name: &str, target: &str) -> (removed: bool)
        ensures
            final(self)@ == old(self)@.with_removed(name@, target@),
            removed == (old(self)@.has(name@) && has_target(
                old(self)@.entry(name@).candidates,
                target@,
            )),
    {
        proof {
            use_type_invariant(&*self);
        }
        let ghost before = self@;
        let wanted = name.to_owned();
        match self.find(&wanted) {
            Some(i) => {
                let mut slots: Vec<Slot> = Vec::new();
                std::mem::swap(&mut self.slots, &mut slots);
                assert(items_of(slots@) == before.items);
                let removed = slots[i].list.remove_alternative(target);
                assert(items_of(slots@) == before.with_removed(name@, target@).items);
                assert(distinct_names(items_of(slots@))) by {
                    lemma_remove_keeps_names(before, name@, target@);
                }
                std::mem::swap(&mut self.slots, &mut slots);
                removed
            },
            None => false,
        }
    }
}

/// In a registry without a name twice, a place that carries `name` is the
/// one that `place` names.
pub proof fn lemma_place(items: Seq<Named>, name: Seq<char>, i: int)
    requires
        distinct_names(items),
        0 <= i < items.len(),
        items[i].name == name,
    ensures
        has_name(items, name),
        place_of(items, name) == i,
{
    let p = place_of(items, name);
    if p < i {
        assert(items[p].name != items[i].name);
    }
    if i < p {
        assert(items[i].name != items[p].name);
    }
}

/// A file that holds no record changes nothing: the items are those that
/// the other files give.
pub proof fn lemma_skipped_file_changes_nothing(
    before: Seq<Found>,
    file: Found,
    after: Seq<Found>,
)
    requires
        !(reading_of(file) is Loaded),
    ensures
        loaded_items(before.push(file) + after) == loaded_items(before + after),
    decreases after.len(),
{
    if after.len() == 0 {
        assert(before.push(file) + after == before.push(file));
        assert(before + after == before);
        assert(before.push(file).drop_last() == before);
    } else {
        lemma_skipped_file_changes_nothing(before, file, after.drop_last());
        assert((before.push(file) + after).drop_last() == before.push(file) + after.drop_last());
        assert((before + after).drop_last() == before + after.drop_last());
    }
}

/// A file that holds the record of a name brings the name in with the entry
/// of the record, whatever was loaded before it.
pub proof fn lemma_loaded_file_is_known(before: Seq<Found>, file: Found)
    requires
        reading_of(file) is Loaded,
    ensures
        ({
            let named = reading_of(file)->Loaded_0;
            let items = loaded_items(before.push(file));
            exists|i: int| 0 <= i < items.len() && items[i] == named
        }),
{
    let named = reading_of(file)->Loaded_0;
    let rest = loaded_items(before);
    assert(before.push(file).drop_last() == before);
    assert(before.push(file).last() == file);
    let items = load_into(rest, named);
    assert(loaded_items(before.push(file)) == items);
    if has_name(rest, named.name) {
        let p = place_of(rest, named.name);
        assert(items[p] == named);
    } else {
        assert(items[rest.len() as int] == named);
    }
}

/// What was written loads back. Where the files of a directory are the
/// record files of the items, one for each in the order of the items, and
/// the text of each is the record of its entry, loading gives the items
/// back: the same names with the same entries. The empty name is left out:
/// its record file stands for another name.
pub proof fn lemma_record_files_load_back(items: Seq<Named>, files: Seq<Found>)
    requires
        distinct_names(items),
        files.len() == items.len(),
        forall|j: int|
            0 <= j < items.len() ==> {
                &&& (#[trigger] items[j]).name.len() > 0
                &&& files[j].file_name == Some(items[j].name + ".json"@)
                &&& files[j].contents matches Some(text) && record_in(text) == Some(
                    items[j].entry,
                )
            },
    ensures
        loaded_items(files) == items,
    decreases files.len(),
{
    if files.len() > 0 {
        let last = items.len() - 1;
        let named = items[last];
        assert(items[last].name.len() > 0);
        lemma_record_file_is_loaded(files.last(), named.name, named.entry);
        assert forall|j: int| 0 <= j < last implies {
            &&& (#[trigger] items.drop_last()[j]).name.len() > 0
            &&& files.drop_last()[j].file_name == Some(items.drop_last()[j].name + ".json"@)
            &&& files.drop_last()[j].contents matches Some(text) && record_in(text) == Some(
                items.drop_last()[j].entry,
            )
        } by {
            assert(items.drop_last()[j] == items[j]);
            assert(files.drop_last()[j] == files[j]);
        }
        assert(distinct_names(items.drop_last())) by {
            assert forall|i: int, j: int| 0 <= i < j < last implies items.drop_last()[i].name
                != items.drop_last()[j].name by {
                assert(items[i].name != items[j].name);
            }
        }
        lemma_record_files_load_back(items.drop_last(), files.drop_last());
        assert(!has_name(items.drop_last(), named.name)) by {
            if has_name(items.drop_last(), named.name) {
                let k = choose|k: int|
                    0 <= k < items.drop_last().len() && items.drop_last()[k].name == named.name;
                assert(items[k].name != items[last].name);
            }
        }
        assert(items.drop_last().push(named) == items);
    }
}

/// Loading never brings a name in twice, whatever the files hold.
pub proof fn lemma_loaded_names_are_distinct(files: Seq<Found>)
    ensures
        distinct_names(loaded_items(files)),
    decreases files.len(),
{
    if files.len() > 0 {
        lemma_loaded_names_are_distinct(files.drop_last());
        if let Reading::Loaded(named) = reading_of(files.last()) {
            lemma_load_keeps_names_distinct(loaded_items(files.drop_last()), named);
        }
    }
}

/// Loading a record never brings a name in twice.
pub proof fn lemma_load_keeps_names_distinct(items: Seq<Named>, named: Named)
    requires
        distinct_names(items),
    ensures
        distinct_names(load_into(items, named)),
{
    let after = load_into(items, named);
    if has_name(items, named.name) {
        assert forall|i: int, j: int| 0 <= i < j < after.len() implies after[i].name
            != after[j].name by {
            assert(items[i].name != items[j].name);
        }
    } else {
        assert forall|i: int, j: int| 0 <= i < j < after.len() implies after[i].name
            != after[j].name by {
            if j < items.len() {
                assert(items[i].name != items[j].name);
            }
        }
    }
}

/// Adding a candidate never brings a name in twice.
pub proof fn lemma_add_keeps_names_distinct(store: Store, name: Seq<char>, c: Candidate)
    requires
        distinct_names(store.items),
    ensures
        distinct_names(store.with_added(name, c).items),
{
    let after = store.with_added(name, c).items;
    if store.has(name) {
        let p = store.place(name);
        assert forall|i: int, j: int| 0 <= i < j < after.len() implies after[i].name
            != after[j].name by {
            assert(store.items[i].name != store.items[j].name);
        }
    } else {
        assert forall|i: int, j: int| 0 <= i < j < after.len() implies after[i].name
            != after[j].name by {
            if j < store.items.len() {
                assert(store.items[i].name != store.items[j].name);
            }
        }
    }
}

/// Removing a candidate keeps every name where it is.
pub proof fn lemma_remove_keeps_names(store: Store, name: Seq<char>, target: Seq<char>)
    ensures
        store.with_removed(name, target).link_root == store.link_root,
        store.with_removed(name, target).items.len() == store.items.len(),
        forall|i: int|
            0 <= i < store.items.len() ==> store.with_removed(name, target).items[i].name
                == store.items[i].name,
        distinct_names(store.items) ==> distinct_names(store.with_removed(name, target).items),
{
    let after = store.with_removed(name, target).items;
    if store.has(name) {
        let p = store.place(name);
        assert forall|i: int| 0 <= i < store.items.len() implies after[i].name
            == store.items[i].name by {}
        if distinct_names(store.items) {
            assert forall|i: int, j: int| 0 <= i < j < after.len() implies after[i].name
                != after[j].name by {
                assert(store.items[i].name != store.items[j].name);
            }
        }
    }
}

/// Removing under a name that is not known, or a target that the entry of
/// the name does not hold, leaves the registry as it is.
pub proof fn lemma_remove_unknown_changes_nothing(
    store: Store,
    name: Seq<char>,
    target: Seq<char>,
)
    requires
        !store.has(name) || !has_target(store.entry(name).candidates, target),
    ensures
        store.with_removed(name, target) == store,
{
    if store.has(name) {
        let p = store.place(name);
        assert(store.items.update(p, store.items[p]) == store.items);
    }
}

/// Removing under one name leaves the entry of every other name as it is.
pub proof fn lemma_remove_spares_others(
    store: Store,
    name: Seq<char>,
    target: Seq<char>,
    other: Seq<char>,
)
    requires
        distinct_names(store.items),
        store.has(other),
        other != name,
    ensures
        store.with_removed(name, target).has(other),
        store.with_removed(name, target).entry(other) == store.entry(other),
{
    let after = store.with_removed(name, target);
    let q = store.place(other);
    lemma_remove_keeps_names(store, name, target);
    assert(after.items[q].name == other);
    lemma_place(after.items, other, q);
}

/// Adding under one name leaves the entry of every other name as it is.
pub proof fn lemma_add_spares_others(
    store: Store,
    name: Seq<char>,
    c: Candidate,
    other: Seq<char>,
)
    requires
        distinct_names(store.items),
        store.has(other),
        other != name,
    ensures
        store.with_added(name, c).has(other),
        store.with_added(name, c).entry(other) == store.entry(other),
{
    let after = store.with_added(name, c);
    let q = store.place(other);
    lemma_add_keeps_names_distinct(store, name, c);
    assert(after.items[q].name == other);
    assert(after.items[q] == store.items[q]);
    lemma_place(after.items, other, q);
}

} // verus!
