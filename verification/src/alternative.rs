//! One candidate target of a link name.

use vstd::prelude::*;

verus! {

/// A candidate as plain values: where it points and how strongly it is preferred.
pub struct Candidate {
    pub target: Seq<char>,
    pub priority: i32,
}

/// A target path together with its priority; the higher priority wins.
#[derive(Debug, PartialEq, Eq)]
pub struct Alternative {
    pub target: String,
    pub priority: i32,
}

impl View for Alternative {
    type V = Candidate;

    open spec fn view(&self) -> Candidate {
        Candidate { target: self.target@, priority: self.priority }
    }
}

impl Alternative {
    /// Builds the alternative that points at `target` with the given priority.
    pub fn from_parts(target: &str, priority: i32) -> (made: Alternative)
        ensures
            made@ == (Candidate { target: target@, priority }),
    {
        Alternative { target: target.to_owned(), priority }
    }

    /// The path this alternative points at.
    pub fn target(&self) -> (target: &str)
        ensures
            target@ == self@.target,
    {
        self.target.as_str()
    }

    /// The priority of this alternative.
    pub fn priority(&self) -> (priority: i32)
        ensures
            priority == self@.priority,
    {
        self.priority
    }

    /// A copy with the same target and priority.
    pub fn duplicate(&self) -> (copy: Alternative)
        ensures
            copy@ == self@,
    {
        Alternative { target: self.target.clone(), priority: self.priority }
    }
}

} // verus!
