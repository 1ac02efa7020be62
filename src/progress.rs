use vstd::prelude::*;

verus! {

/// How far a typist has come through a text: characters typed correctly,
/// characters typed wrongly, and characters in all.
#[derive(Clone, Copy, PartialEq, Eq, Debug, Structural)]
pub struct Progress {
    pub correct: usize,
    pub incorrect: usize,
    pub total: usize,
}

impl Progress {
    /// Whether the counts of two progress records can be summed in a `usize`.
    pub open spec fn can_add(self, other: Progress) -> bool {
        &&& self.correct + other.correct <= usize::MAX
        &&& self.incorrect + other.incorrect <= usize::MAX
        &&& self.total + other.total <= usize::MAX
    }

    /// The progress through two texts together: each count summed.
    pub fn add(self, other: Progress) -> (r: Progress)
        requires
            self.can_add(other),
        ensures
            r.correct == self.correct + other.correct,
            r.incorrect == self.incorrect + other.incorrect,
            r.total == self.total + other.total,
    {
        Progress {
            correct: self.correct + other.correct,
            incorrect: self.incorrect + other.incorrect,
            total: self.total + other.total,
        }
    }
}

} // verus!
