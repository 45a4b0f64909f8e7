//! The number of followers of a user.
use vstd::prelude::*;

verus! {

/// A count of followers.
#[derive(Clone, Debug, PartialEq, Eq, Structural, Hash, Copy)]
pub struct FollowCount(u64);

impl FollowCount {
    pub closed spec fn spec_count(self) -> u64 {
        self.0
    }

    pub fn new(count: u64) -> (r: FollowCount)
        ensures
            r.spec_count() == count,
    {
        FollowCount(count)
    }

    pub fn count(&self) -> (r: u64)
        ensures
            r == self.spec_count(),
    {
        self.0
    }
}

} // verus!
