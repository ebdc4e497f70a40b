//! What was found in the directory of records, and what each file gives.

use crate::alternative_db::Named;
use crate::alternative_list::Entry;
use crate::json::json_parse;
use crate::record::entry_of;
use vstd::prelude::*;
use vstd::string::StrSliceExecFns;

verus! {

/// `i` is the place of the last dot of `name`.
pub open spec fn is_last_dot(name: Seq<char>, i: int) -> bool {
    &&& 0 <= i < name.len()
    &&& name[i] == '.'
    &&& forall|j: int| i < j < name.len() ==> name[j] != '.'
}

/// `name` has a dot that is not its first character.
pub open spec fn has_extension(name: Seq<char>) -> bool {
    exists|i: int| 0 < i && is_last_dot(name, i)
}

/// The name that a file of the directory stands for: the file name up to
/// its last dot, or all of it where it has no dot but a first character.
/// The empty name, `.` and `..` stand for none.
pub open spec fn file_stem(name: Seq<char>) -> Option<Seq<char>> {
    if name.len() == 0 || name == seq!['.'] || name == seq!['.', '.'] {
        None
    } else if has_extension(name) {
        Some(name.take(choose|i: int| 0 < i && is_last_dot(name, i)))
    } else {
        Some(name)
    }
}

/// The name that a file of the directory stands for.
pub fn record_name(file_name: &str) -> (name: Option<String>)
    ensures
        match name {
            Some(stem) => file_stem(file_name@) == Some(stem@),
            None => file_stem(file_name@).is_none(),
        },
{
    let n: usize = file_name.unicode_len();
    if n == 0 {
        return None;
    }
    if n <= 2 && file_name.get_char(0) == '.' && file_name.get_char(n - 1) == '.' {
        assert(file_name@ == seq!['.'] || file_name@ == seq!['.', '.']);
        return None;
    }
    assert(file_name@ != seq!['.'] && file_name@ != seq!['.', '.']) by {
        if file_name@ == seq!['.'] || file_name@ == seq!['.', '.'] {
            assert(file_name@[0] == '.');
            assert(file_name@[n - 1] == '.');
        }
    }
    let mut i: usize = n - 1;
    while i > 0
        invariant
            i < n,
            n == file_name@.len(),
            file_name@ != seq!['.'] && file_name@ != seq!['.', '.'],
            forall|j: int| i < j < n ==> file_name@[j] != '.',
        decreases i,
    {
        if file_name.get_char(i) == '.' {
            assert(is_last_dot(file_name@, i as int));
            assert forall|k: int| 0 < k && is_last_dot(file_name@, k) implies k == i by {
                if k < i {
                    assert(file_name@[i as int] != '.');
                }
                if i < k {
                    assert(file_name@[k] != '.');
                }
            }
            assert(has_extension(file_name@));
            assert(file_name@.take(i as int) == file_name@.subrange(0, i as int));
            return Some(file_name.substring_char(0, i).to_owned());
        }
        i -= 1;
    }
    assert(!has_extension(file_name@)) by {
        if has_extension(file_name@) {
            let k = choose|k: int| 0 < k && is_last_dot(file_name@, k);
            assert(file_name@[k] != '.');
        }
    }
    Some(file_name.to_owned())
}

/// A file of the directory as plain values.
pub struct Found {
    pub file_name: Option<Seq<char>>,
    pub contents: Option<Seq<char>>,
}

/// A file that was found in the directory of records.
#[derive(Debug, PartialEq, Eq)]
pub struct FoundFile {
    /// The name of the file, or nothing where it could not be read.
    pub file_name: Option<String>,
    /// What the file holds, or nothing where it could not be read.
    pub contents: Option<String>,
}

impl View for FoundFile {
    type V = Found;

    open spec fn view(&self) -> Found {
        Found {
            file_name: match self.file_name {
                Some(name) => Some(name@),
                None => None,
            },
            contents: match self.contents {
                Some(text) => Some(text@),
                None => None,
            },
        }
    }
}

/// The files that a vector of found files stands for.
pub open spec fn found_in(files: Seq<FoundFile>) -> Seq<Found> {
    files.map_values(|f: FoundFile| f@)
}

/// What a file of the directory gives.
pub enum Reading {
    /// The record of a name.
    Loaded(Named),
    /// The file has no name that could be read, or its name stands for none.
    NoName,
    /// The contents of the file could not be read.
    Unreadable,
    /// The contents are not JSON.
    NotJson,
    /// The contents are JSON, but not a record.
    Malformed,
}

/// What `file` gives. The name is looked at first, then the contents.
pub open spec fn reading_of(file: Found) -> Reading {
    match file.file_name {
        None => Reading::NoName,
        Some(file_name) => match file_stem(file_name) {
            None => Reading::NoName,
            Some(name) => match file.contents {
                None => Reading::Unreadable,
                Some(text) => match json_parse(text) {
                    None => Reading::NotJson,
                    Some(tree) => match entry_of(tree) {
                        None => Reading::Malformed,
                        Some(entry) => Reading::Loaded(Named { name, entry }),
                    },
                },
            },
        },
    }
}

/// The entry whose record `text` is, if it is the record of one.
pub open spec fn record_in(text: Seq<char>) -> Option<Entry> {
    match json_parse(text) {
        Some(tree) => entry_of(tree),
        None => None,
    }
}

/// The record file of a name stands for that name: a name that is not
/// empty comes back from its name with `.json` behind it.
pub proof fn lemma_record_file_names_its_name(name: Seq<char>)
    requires
        name.len() > 0,
    ensures
        file_stem(name + ".json"@) == Some(name),
{
    reveal_strlit(".json");
    let full = name + ".json"@;
    let n = name.len() as int;
    assert(full.len() == n + 5);
    assert(is_last_dot(full, n));
    let k = choose|k: int| 0 < k && is_last_dot(full, k);
    if k < n {
        assert(full[n] != '.');
    }
    if n < k {
        assert(full[k] != '.');
    }
    assert(full.take(n) == name);
}

/// A file with the name of the record file of `name` whose text is the
/// record of `entry` gives that name with that entry.
pub proof fn lemma_record_file_is_loaded(file: Found, name: Seq<char>, entry: Entry)
    requires
        name.len() > 0,
        file.file_name == Some(name + ".json"@),
        file.contents matches Some(text) && record_in(text) == Some(entry),
    ensures
        reading_of(file) == Reading::Loaded(Named { name, entry }),
{
    lemma_record_file_names_its_name(name);
}

/// What became of one file when the registry was loaded.
#[derive(Debug, PartialEq, Eq)]
pub enum LoadOutcome {
    /// The record of `name` was loaded with this many candidates.
    Loaded { name: String, candidates: usize },
    /// The file was passed over: it has no name that could be read.
    NoName,
    /// The file was passed over: its contents could not be read.
    Unreadable,
    /// The file was passed over: its contents are not JSON.
    NotJson { message: String },
    /// The file was passed over: its contents are JSON, but not a record.
    Malformed,
}

impl LoadOutcome {
    /// The outcome reports what `reading` says.
    pub open spec fn reports(self, reading: Reading) -> bool {
        match self {
            LoadOutcome::Loaded { name, candidates } => reading matches Reading::Loaded(named)
                && name@ == named.name && candidates == named.entry.candidates.len(),
            LoadOutcome::NoName => reading is NoName,
            LoadOutcome::Unreadable => reading is Unreadable,
            LoadOutcome::NotJson { .. } => reading is NotJson,
            LoadOutcome::Malformed => reading is Malformed,
        }
    }
}

} // verus!
