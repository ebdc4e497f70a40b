//! The record of one name: how an entry is written as a JSON document and
//! read back from one.
//!
//! A record is an object with the members `link_path`, a string, and
//! `candidates`, an array of objects with the members `target`, a string,
//! and `priority`, an integer of 32 bits with a sign. Other members are
//! passed over. A record in which two candidates share a target is refused.

use crate::alternative::{Alternative, Candidate};
use crate::alternative_list::{
    distinct_targets, has_target, lemma_add_keeps_targets_distinct, AlternativeList, Entry,
};
use crate::json::{
    first_member, is_exact, json_parse, json_text, lemma_array_view, lemma_object_view, lookup,
    Document, Json, JsonError, Member,
};
use vstd::prelude::*;

verus! {

/// The document that stands for one candidate.
pub open spec fn candidate_tree(c: Candidate) -> Document {
    Document::Object(
        seq![
            ("target"@, Document::Str(c.target)),
            ("priority"@, Document::Int(c.priority as i64)),
        ],
    )
}

/// The document that stands for an entry: its record.
pub open spec fn record_tree(e: Entry) -> Document {
    Document::Object(
        seq![
            ("link_path"@, Document::Str(e.link_path)),
            (
                "candidates"@,
                Document::Array(e.candidates.map_values(|c: Candidate| candidate_tree(c))),
            ),
        ],
    )
}

/// The candidate that `tree` stands for, if it stands for one.
pub open spec fn candidate_of(tree: Document) -> Option<Candidate> {
    match (lookup(tree, "target"@), lookup(tree, "priority"@)) {
        (Some(Document::Str(target)), Some(Document::Int(priority))) => {
            if i32::MIN <= priority <= i32::MAX {
                Some(Candidate { target, priority: priority as i32 })
            } else {
                None
            }
        },
        _ => None,
    }
}

/// Every document of `items` stands for a candidate.
pub open spec fn all_candidates(items: Seq<Document>) -> bool {
    forall|i: int| 0 <= i < items.len() ==> candidate_of(#[trigger] items[i]).is_some()
}

/// The candidates that the documents of `items` stand for.
pub open spec fn candidates_in(items: Seq<Document>) -> Seq<Candidate> {
    items.map_values(|item: Document| candidate_of(item).unwrap())
}

/// The entry that `tree` stands for, if it is a record.
pub open spec fn entry_of(tree: Document) -> Option<Entry> {
    match (lookup(tree, "link_path"@), lookup(tree, "candidates"@)) {
        (Some(Document::Str(link_path)), Some(Document::Array(items))) => {
            if all_candidates(items) && distinct_targets(candidates_in(items)) {
                Some(Entry { link_path, candidates: candidates_in(items) })
            } else {
                None
            }
        },
        _ => None,
    }
}

/// Why a text is not the record of an entry.
#[derive(Debug, PartialEq, Eq)]
pub enum RecordError {
    /// The text is not JSON.
    Syntax(JsonError),
    /// The text is JSON, but not a record.
    Malformed,
}

impl Alternative {
    /// The document that stands for this candidate.
    pub fn to_json(&self) -> (tree: Json)
        ensures
            tree@ == candidate_tree(self@),
    {
        let mut members: Vec<Member> = Vec::new();
        members.push(Member { key: "target".to_owned(), value: Json::Str(self.target.clone()) });
        members.push(
            Member { key: "priority".to_owned(), value: Json::Int(self.priority as i64) },
        );
        let tree = Json::Object(members);
        proof {
            lemma_object_view(tree);
            assert(tree@->Object_0 == candidate_tree(self@)->Object_0);
        }
        tree
    }

    /// The candidate that `tree` stands for, if it stands for one.
    pub fn from_json(tree: &Json) -> (read: Option<Alternative>)
        ensures
            match read {
                Some(made) => candidate_of(tree@) == Some(made@),
                None => candidate_of(tree@).is_none(),
            },
    {
        match (tree.get("target"), tree.get("priority")) {
            (Some(Json::Str(target)), Some(Json::Int(priority))) => {
                if i32::MIN as i64 <= *priority && *priority <= i32::MAX as i64 {
                    Some(Alternative { target: target.clone(), priority: *priority as i32 })
                } else {
                    None
                }
            },
            _ => None,
        }
    }
}

impl AlternativeList {
    /// The record of this entry.
    pub fn to_json(&self) -> (tree: Json)
        ensures
            tree@ == record_tree(self@),
    {
        let links = self.links();
        let mut items: Vec<Json> = Vec::new();
        let mut i: usize = 0;
        while i < links.len()
            invariant
                i <= links.len(),
                items.len() == i,
                forall|k: int| 0 <= k < i ==> items[k]@ == candidate_tree(links[k]@),
            decreases links.len() - i,
        {
            items.push(links[i].to_json());
            i += 1;
        }
        let array = Json::Array(items);
        proof {
            lemma_array_view(array);
            assert(array@->Array_0 == self@.candidates.map_values(
                |c: Candidate| candidate_tree(c),
            ));
        }
        let mut members: Vec<Member> = Vec::new();
        members.push(
            Member { key: "link_path".to_owned(), value: Json::Str(self.path().to_owned()) },
        );
        members.push(Member { key: "candidates".to_owned(), value: array });
        let tree = Json::Object(members);
        proof {
            lemma_object_view(tree);
            assert(tree@->Object_0 == record_tree(self@)->Object_0);
        }
        tree
    }

    /// The entry that `tree` stands for, if it is a record.
    pub fn from_json(tree: &Json) -> (read: Option<AlternativeList>)
        ensures
            match read {
                Some(list) => entry_of(tree@) == Some(list@),
                None => entry_of(tree@).is_none(),
            },
    {
        match (tree.get("link_path"), tree.get("candidates")) {
            (Some(Json::Str(link_path)), Some(Json::Array(items))) => {
                let ghost docs = lookup(tree@, "candidates"@).unwrap()->Array_0;
                proof {
                    lemma_array_view(Json::Array(*items));
                }
                let mut list = AlternativeList::new(link_path.as_str());
                let mut i: usize = 0;
                while i < items.len()
                    invariant
                        i <= items.len(),
                        lookup(tree@, "link_path"@) == Some(Document::Str(link_path@)),
                        lookup(tree@, "candidates"@) == Some(Document::Array(docs)),
                        docs.len() == items.len(),
                        forall|k: int| 0 <= k < items.len() ==> docs[k] == items[k]@,
                        list@.link_path == link_path@,
                        all_candidates(docs.take(i as int)),
                        list@.candidates == candidates_in(docs.take(i as int)),
                        distinct_targets(list@.candidates),
                    decreases items.len() - i,
                {
                    let ghost before = list@.candidates;
                    assert(docs.take(i as int + 1) == docs.take(i as int).push(docs[i as int]));
                    match Alternative::from_json(&items[i]) {
                        Some(alternative) => {
                            if list.has_target(alternative.target()) {
                                proof {
                                    lemma_shared_target(docs, before, i as int);
                                }
                                return None;
                            }
                            proof {
                                lemma_add_keeps_targets_distinct(before, alternative@);
                            }
                            list.add_alternative(alternative);
                            assert(list@.candidates == before.push(alternative@));
                            assert(list@.candidates == candidates_in(docs.take(i as int + 1)));
                        },
                        None => {
                            assert(!all_candidates(docs));
                            return None;
                        },
                    }
                    i += 1;
                }
                assert(docs.take(i as int) == docs);
                Some(list)
            },
            _ => None,
        }
    }

    /// The record of this entry as JSON text.
    pub fn to_text(&self) -> (text: Result<String, JsonError>)
        ensures
            match text {
                Ok(written) => json_text(record_tree(self@)) == Some(written@),
                Err(_) => json_text(record_tree(self@)).is_none(),
            },
    {
        let tree = self.to_json();
        proof {
            lemma_record_is_exact(self@);
        }
        tree.render()
    }

    /// Reads the record of an entry from JSON text.
    pub fn from_text(text: &str) -> (read: Result<AlternativeList, RecordError>)
        ensures
            match read {
                Ok(list) => json_parse(text@) matches Some(tree) && entry_of(tree) == Some(list@),
                Err(RecordError::Syntax(_)) => json_parse(text@).is_none(),
                Err(RecordError::Malformed) => json_parse(text@) matches Some(tree) && entry_of(
                    tree,
                ).is_none(),
            },
    {
        match Json::parse(text) {
            Ok(tree) => match AlternativeList::from_json(&tree) {
                Some(list) => Ok(list),
                None => Err(RecordError::Malformed),
            },
            Err(error) => Err(RecordError::Syntax(error)),
        }
    }
}

/// A candidate that is written and read back is the same candidate.
pub proof fn lemma_candidate_round_trip(c: Candidate)
    ensures
        candidate_of(candidate_tree(c)) == Some(c),
{
    reveal_strlit("target");
    reveal_strlit("priority");
    reveal_with_fuel(first_member, 3);
    let members = candidate_tree(c)->Object_0;
    assert(members.drop_first()[0] == members[1]);
    assert("target"@.len() != "priority"@.len());
}

/// An entry that is written and read back is the same entry, and writing
/// what was read gives the same record again.
pub proof fn lemma_record_round_trip(e: Entry)
    requires
        distinct_targets(e.candidates),
    ensures
        entry_of(record_tree(e)) == Some(e),
        record_tree(entry_of(record_tree(e)).unwrap()) == record_tree(e),
{
    reveal_strlit("link_path");
    reveal_strlit("candidates");
    reveal_with_fuel(first_member, 3);
    let members = record_tree(e)->Object_0;
    assert(members.drop_first()[0] == members[1]);
    assert("link_path"@.len() != "candidates"@.len());
    let items = e.candidates.map_values(|c: Candidate| candidate_tree(c));
    assert(lookup(record_tree(e), "candidates"@) == Some(Document::Array(items)));
    assert forall|i: int| 0 <= i < items.len() implies candidate_of(#[trigger] items[i]) == Some(
        e.candidates[i],
    ) by {
        lemma_candidate_round_trip(e.candidates[i]);
    }
    assert(candidates_in(items) == e.candidates);
}

/// The record of an entry holds no number but integers of 64 bits.
pub proof fn lemma_record_is_exact(e: Entry)
    ensures
        is_exact(record_tree(e)),
{
    reveal_with_fuel(is_exact, 5);
    let items = e.candidates.map_values(|c: Candidate| candidate_tree(c));
    assert forall|i: int| 0 <= i < items.len() implies is_exact(#[trigger] items[i]) by {
        let members = items[i]->Object_0;
        assert forall|k: int| 0 <= k < members.len() implies is_exact(
            (#[trigger] members[k]).1,
        ) by {}
    }
    let members = record_tree(e)->Object_0;
    assert forall|k: int| 0 <= k < members.len() implies is_exact((#[trigger] members[k]).1) by {
    }
}

/// Where a candidate read from place `i` points at a target that an earlier
/// place holds, the documents do not stand for distinct targets.
proof fn lemma_shared_target(docs: Seq<Document>, before: Seq<Candidate>, i: int)
    requires
        0 <= i < docs.len(),
        before == candidates_in(docs.take(i)),
        candidate_of(docs[i]).is_some(),
        has_target(before, candidate_of(docs[i]).unwrap().target),
    ensures
        !distinct_targets(candidates_in(docs)),
{
    let target = candidate_of(docs[i]).unwrap().target;
    let k = choose|k: int| 0 <= k < before.len() && before[k].target == target;
    assert(docs.take(i)[k] == docs[k]);
    assert(candidates_in(docs)[k].target == candidates_in(docs)[i].target);
}

} // verus!
