use vstd::prelude::*;

verus! {

/// Content-derived identifier of one commit: its 160-bit object id, held as
/// three big-endian words (bytes 0..8, 8..16 and 16..20).
#[derive(Clone, Copy, Debug, PartialEq, Eq, Structural)]
pub struct CommitRef {
    pub hi: u64,
    pub mid: u64,
    pub lo: u32,
}

impl CommitRef {
    pub fn new(hi: u64, mid: u64, lo: u32) -> (r: CommitRef)
        ensures
            r.hi == hi,
            r.mid == mid,
            r.lo == lo,
    {
        CommitRef { hi, mid, lo }
    }
}

/// No commit occurs twice in `s`: true of any walk of a commit graph.
pub open spec fn distinct(s: Seq<CommitRef>) -> bool {
    forall|i: int, j: int| 0 <= i < j < s.len() ==> s[i] != s[j]
}

} // verus!
