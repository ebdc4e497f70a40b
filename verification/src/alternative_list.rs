//! All the candidates of one link name, and the path of the link they compete for.

use crate::alternative::{Alternative, Candidate};
use vstd::prelude::*;

verus! {

/// An entry as plain values: the link path and the candidates in insertion order.
pub struct Entry {
    pub link_path: Seq<char>,
    pub candidates: Seq<Candidate>,
}

/// The candidates that a vector of alternatives stands for.
pub open spec fn candidates_of(links: Seq<Alternative>) -> Seq<Candidate> {
    links.map_values(|a: Alternative| a@)
}

/// No two candidates point at the same target.
pub open spec fn distinct_targets(s: Seq<Candidate>) -> bool {
    forall|i: int, j: int| 0 <= i < j < s.len() ==> s[i].target != s[j].target
}

/// Some candidate of `s` points at `target`.
pub open spec fn has_target(s: Seq<Candidate>, target: Seq<char>) -> bool {
    exists|i: int| 0 <= i < s.len() && s[i].target == target
}

/// `i` is the first place in `s` whose candidate points at `target`.
pub open spec fn is_position(s: Seq<Candidate>, target: Seq<char>, i: int) -> bool {
    &&& 0 <= i < s.len()
    &&& s[i].target == target
    &&& forall|j: int| 0 <= j < i ==> s[j].target != target
}

/// The first place in `s` whose candidate points at `target`; meaningful
/// where `has_target` holds.
pub open spec fn position(s: Seq<Candidate>, target: Seq<char>) -> int {
    choose|i: int| is_position(s, target, i)
}

/// The candidates after `c` was added to `s`: a candidate with the same
/// target gives way to `c` where it stands, otherwise `c` goes to the end.
pub open spec fn with_candidate(s: Seq<Candidate>, c: Candidate) -> Seq<Candidate> {
    if has_target(s, c.target) {
        s.update(position(s, c.target), c)
    } else {
        s.push(c)
    }
}

/// The candidates after the one that points at `target` was taken out of `s`.
pub open spec fn without_target(s: Seq<Candidate>, target: Seq<char>) -> Seq<Candidate> {
    if has_target(s, target) {
        s.remove(position(s, target))
    } else {
        s
    }
}

/// `i` is the winner of `s`: no candidate has a higher priority, and every
/// candidate before it has a strictly lower one.
pub open spec fn is_best(s: Seq<Candidate>, i: int) -> bool {
    &&& 0 <= i < s.len()
    &&& forall|j: int| 0 <= j < s.len() ==> s[j].priority <= s[i].priority
    &&& forall|j: int| 0 <= j < i ==> s[j].priority < s[i].priority
}

/// The candidates of one name. No target occurs twice among them.
#[derive(Debug)]
pub struct AlternativeList {
    path: String,
    links: Vec<Alternative>,
}

impl View for AlternativeList {
    type V = Entry;

    closed spec fn view(&self) -> Entry {
        Entry { link_path: self.path@, candidates: candidates_of(self.links@) }
    }
}

impl AlternativeList {
    #[verifier::type_invariant]
    spec fn well_formed(self) -> bool {
        distinct_targets(candidates_of(self.links@))
    }

    /// An entry without candidates whose link lives at `path`.
    pub fn new(path: &str) -> (made: AlternativeList)
        ensures
            made@.link_path == path@,
            made@.candidates == Seq::<Candidate>::empty(),
    {
        AlternativeList { path: path.to_owned(), links: Vec::new() }
    }

    /// The number of candidates.
    pub fn num_links(&self) -> (n: usize)
        ensures
            n == self@.candidates.len(),
            distinct_targets(self@.candidates),
    {
        proof {
            use_type_invariant(self);
        }
        self.links.len()
    }

    /// Where the symbolic link of this entry is kept.
    pub fn path(&self) -> (path: &str)
        ensures
            path@ == self@.link_path,
    {
        self.path.as_str()
    }

    /// The candidates in insertion order.
    pub fn links(&self) -> (links: &Vec<Alternative>)
        ensures
            candidates_of(links@) == self@.candidates,
            distinct_targets(self@.candidates),
    {
        proof {
            use_type_invariant(self);
        }
        &self.links
    }

    /// Whether some candidate points at `target`.
    pub fn has_target(&self, target: &str) -> (known: bool)
        ensures
            known == has_target(self@.candidates, target@),
    {
        let wanted = target.to_owned();
        self.find(&wanted).is_some()
    }

    /// The first place whose candidate points at `target`, if there is one.
    fn find(&self, target: &String) -> (found: Option<usize>)
        ensures
            match found {
                Some(i) => is_position(self@.candidates, target@, i as int),
                None => !has_target(self@.candidates, target@),
            },
    {
        let mut i: usize = 0;
        while i < self.links.len()
            invariant
                i <= self.links.len(),
                forall|j: int| 0 <= j < i ==> candidates_of(self.links@)[j].target != target@,
            decreases self.links.len() - i,
        {
            if self.links[i].target == *target {
                return Some(i);
            }
            i += 1;
        }
        None
    }

    /// Adds a candidate. A target that is new is appended; a known target
    /// with another priority has its candidate replaced where it stands; a
    /// known target with the same priority leaves the entry as it was. The
    /// result tells whether the entry changed.
    pub fn add_alternative(&mut self, to_add: Alternative) -> (changed: bool)
        ensures
            final(self)@.link_path == old(self)@.link_path,
            final(self)@.candidates == with_candidate(old(self)@.candidates, to_add@),
            changed == !old(self)@.candidates.contains(to_add@),
    {
        proof {
            use_type_invariant(&*self);
        }
        let ghost before = self@.candidates;
        let found = self.find(&to_add.target);
        let mut links: Vec<Alternative> = Vec::new();
        std::mem::swap(&mut self.links, &mut links);
        assert(candidates_of(links@) == before);
        let changed = match found {
            Some(i) => {
                proof {
                    lemma_position(before, to_add@.target, i as int);
                }
                if links[i].priority == to_add.priority {
                    assert(before[i as int] == to_add@);
                    assert(before.update(i as int, to_add@) == before);
                    false
                } else {
                    assert(!before.contains(to_add@)) by {
                        if before.contains(to_add@) {
                            let k = choose|k: int| 0 <= k < before.len() && before[k] == to_add@;
                            assert(k == i);
                        }
                    }
                    links[i] = to_add;
                    assert(candidates_of(links@) == before.update(i as int, to_add@));
                    true
                }
            },
            None => {
                assert(!before.contains(to_add@)) by {
                    if before.contains(to_add@) {
                        let k = choose|k: int| 0 <= k < before.len() && before[k] == to_add@;
                        assert(before[k].target == to_add@.target);
                    }
                }
                links.push(to_add);
                assert(candidates_of(links@) == before.push(to_add@));
                true
            },
        };
        std::mem::swap(&mut self.links, &mut links);
        changed
    }

    /// Takes out the candidate that points at `target`. The result tells
    /// whether there was one; without one the entry stays as it was.
    pub fn remove_alternative(&mut self, target: &str) -> (removed: bool)
        ensures
            final(self)@.link_path == old(self)@.link_path,
            final(self)@.candidates == without_target(old(self)@.candidates, target@),
            removed == has_target(old(self)@.candidates, target@),
    {
        proof {
            use_type_invariant(&*self);
        }
        let ghost before = self@.candidates;
        let wanted = target.to_owned();
        match self.find(&wanted) {
            Some(i) => {
                proof {
                    lemma_position(before, target@, i as int);
                }
                let mut links: Vec<Alternative> = Vec::new();
                std::mem::swap(&mut self.links, &mut links);
                links.remove(i);
                assert(candidates_of(links@) == before.remove(i as int));
                std::mem::swap(&mut self.links, &mut links);
                true
            },
            None => false,
        }
    }

    /// The place of the winner: the candidate with the highest priority, and
    /// among several of that priority the one that was added first. An entry
    /// without candidates has no winner.
    pub fn best(&self) -> (winner: Option<usize>)
        ensures
            match winner {
                Some(i) => is_best(self@.candidates, i as int),
                None => self@.candidates.len() == 0,
            },
    {
        if self.links.len() == 0 {
            return None;
        }
        let mut winner: usize = 0;
        let mut i: usize = 1;
        while i < self.links.len()
            invariant
                1 <= i <= self.links.len(),
                winner < i,
                forall|j: int|
                    0 <= j < i ==> self.links@[j].priority <= self.links@[winner as int].priority,
                forall|j: int|
                    0 <= j < winner ==> self.links@[j].priority
                        < self.links@[winner as int].priority,
            decreases self.links.len() - i,
        {
            if self.links[i].priority > self.links[winner].priority {
                winner = i;
            }
            i += 1;
        }
        Some(winner)
    }
}

/// A place that meets `is_position` is the one that `position` names.
pub proof fn lemma_position(s: Seq<Candidate>, target: Seq<char>, i: int)
    requires
        is_position(s, target, i),
    ensures
        has_target(s, target),
        position(s, target) == i,
{
    let p = position(s, target);
    assert(is_position(s, target, p));
    if p < i {
        assert(s[p].target != target);
    }
    if i < p {
        assert(s[i].target != target);
    }
}

/// Where some candidate points at `target`, `position` names the first that does.
pub proof fn lemma_position_exists(s: Seq<Candidate>, target: Seq<char>)
    requires
        has_target(s, target),
    ensures
        is_position(s, target, position(s, target)),
{
    let k = choose|k: int| 0 <= k < s.len() && s[k].target == target;
    lemma_first_from(s, target, k);
}

proof fn lemma_first_from(s: Seq<Candidate>, target: Seq<char>, k: int)
    requires
        0 <= k < s.len(),
        s[k].target == target,
    ensures
        exists|i: int| is_position(s, target, i),
    decreases k,
{
    if exists|j: int| 0 <= j < k && s[j].target == target {
        let j = choose|j: int| 0 <= j < k && s[j].target == target;
        lemma_first_from(s, target, j);
    } else {
        assert(is_position(s, target, k));
    }
}

/// Adding a candidate never brings a target in twice.
pub proof fn lemma_add_keeps_targets_distinct(s: Seq<Candidate>, c: Candidate)
    requires
        distinct_targets(s),
    ensures
        distinct_targets(with_candidate(s, c)),
{
    if has_target(s, c.target) {
        let p = position(s, c.target);
        lemma_position_exists(s, c.target);
    } else {
        let t = s.push(c);
        assert forall|i: int, j: int| 0 <= i < j < t.len() implies t[i].target != t[j].target by {
            if j == s.len() {
                assert(s[i].target != c.target);
            }
        }
    }
}

/// Adding a candidate a second time changes nothing. Once added, the
/// candidate is among the candidates, so adding it again reports no change,
/// leaves the candidates as they are, and no target occurs twice.
pub proof fn lemma_add_twice(s: Seq<Candidate>, c: Candidate)
    requires
        distinct_targets(s),
    ensures
        with_candidate(s, c).contains(c),
        with_candidate(with_candidate(s, c), c) == with_candidate(s, c),
        distinct_targets(with_candidate(s, c)),
{
    let t = with_candidate(s, c);
    lemma_add_keeps_targets_distinct(s, c);
    if has_target(s, c.target) {
        let p = position(s, c.target);
        lemma_position_exists(s, c.target);
        assert(t[p] == c);
        assert(is_position(t, c.target, p));
        lemma_position(t, c.target, p);
        assert(t.update(p, c) == t);
    } else {
        let p = s.len() as int;
        assert(t[p] == c);
        assert(is_position(t, c.target, p)) by {
            assert forall|j: int| 0 <= j < p implies t[j].target != c.target by {
                assert(s[j].target != c.target);
            }
        }
        lemma_position(t, c.target, p);
        assert(t.update(p, c) == t);
    }
}

/// Adding a known target with another priority reports a change and
/// replaces the candidate where it stands: the number of candidates is the
/// same, the place of the target holds the new candidate, and every other
/// place holds what it held.
pub proof fn lemma_add_updates_priority(s: Seq<Candidate>, c: Candidate)
    requires
        distinct_targets(s),
        has_target(s, c.target),
        s[position(s, c.target)].priority != c.priority,
    ensures
        !s.contains(c),
        with_candidate(s, c).len() == s.len(),
        with_candidate(s, c)[position(s, c.target)] == c,
        forall|j: int|
            0 <= j < s.len() && j != position(s, c.target) ==> with_candidate(s, c)[j] == s[j],
{
    let p = position(s, c.target);
    lemma_position_exists(s, c.target);
    if s.contains(c) {
        let k = choose|k: int| 0 <= k < s.len() && s[k] == c;
        assert(k == p);
    }
}

/// Removing a target that no candidate points at reports that nothing was
/// removed and leaves the candidates as they are.
pub proof fn lemma_remove_unknown(s: Seq<Candidate>, target: Seq<char>)
    requires
        !has_target(s, target),
    ensures
        without_target(s, target) == s,
{
}

/// Removing a target takes out its candidate and no other: every other
/// candidate stays, in the same order, and the target is gone.
pub proof fn lemma_remove_known(s: Seq<Candidate>, target: Seq<char>)
    requires
        distinct_targets(s),
        has_target(s, target),
    ensures
        without_target(s, target).len() == s.len() - 1,
        !has_target(without_target(s, target), target),
        distinct_targets(without_target(s, target)),
        forall|j: int|
            0 <= j < position(s, target) ==> without_target(s, target)[j] == s[j],
        forall|j: int|
            position(s, target) < j < s.len() ==> without_target(s, target)[j - 1] == s[j],
{
    let p = position(s, target);
    lemma_position_exists(s, target);
    let t = s.remove(p);
    if has_target(t, target) {
        let k = choose|k: int| 0 <= k < t.len() && t[k].target == target;
        if k < p {
            assert(s[k].target == target);
        } else {
            assert(s[k + 1].target == target);
        }
    }
}

/// An entry has at most one winner: resolution always picks the same candidate.
pub proof fn lemma_best_is_unique(s: Seq<Candidate>, i: int, j: int)
    requires
        is_best(s, i),
        is_best(s, j),
    ensures
        i == j,
{
    if i < j {
        assert(s[i].priority < s[j].priority);
    }
    if j < i {
        assert(s[j].priority < s[i].priority);
    }
}

} // verus!
