//! Identifiers of group slots, ordered by their number.

use core::cmp::Ordering;
use vstd::prelude::*;

verus! {

/// Identifier of a group slot.
#[derive(Clone, Copy, Debug, PartialEq, Eq, Structural, Hash, Ord)]
pub struct GroupID(pub usize);

impl GroupID {
    pub fn new(id: usize) -> (r: GroupID)
        ensures
            r.0 == id,
    {
        GroupID(id)
    }

    pub fn id(&self) -> (r: usize)
        ensures
            r == self.0,
    {
        self.0
    }
}

/// The order of two identifiers: that of their numbers.
pub open spec fn group_id_order(a: GroupID, b: GroupID) -> Option<Ordering> {
    if a.0 < b.0 {
        Some(Ordering::Less)
    } else if a.0 == b.0 {
        Some(Ordering::Equal)
    } else {
        Some(Ordering::Greater)
    }
}

impl PartialOrd for GroupID {
    fn partial_cmp(&self, other: &GroupID) -> (r: Option<Ordering>) {
        if self.0 < other.0 {
            Some(Ordering::Less)
        } else if self.0 == other.0 {
            Some(Ordering::Equal)
        } else {
            Some(Ordering::Greater)
        }
    }
}

impl vstd::std_specs::cmp::PartialOrdSpecImpl for GroupID {
    open spec fn obeys_partial_cmp_spec() -> bool {
        true
    }

    open spec fn partial_cmp_spec(&self, other: &GroupID) -> Option<Ordering> {
        group_id_order(*self, *other)
    }
}

/// An identifier gives back the number it was made from; two identifiers
/// are equal exactly when their numbers are, and one comes before another
/// exactly when its number is smaller.
pub proof fn lemma_group_id_identity(a: usize, b: usize)
    ensures
        GroupID(a).0 == a,
        (GroupID(a) == GroupID(b)) <==> a == b,
        (group_id_order(GroupID(a), GroupID(b)) == Some(Ordering::Less)) <==> a < b,
        (group_id_order(GroupID(a), GroupID(b)) == Some(Ordering::Greater)) <==> a > b,
{
}

} // verus!
