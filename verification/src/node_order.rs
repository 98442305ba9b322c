//! Node identifiers are ordered by their indices.
use vstd::prelude::*;
use vstd::std_specs::cmp::PartialOrdSpecImpl;

use core::cmp::Ordering;

use crate::autograd::NodeId;

verus! {

/// The comparison of two indices.
pub open spec fn compare_indices(a: usize, b: usize) -> Option<Ordering> {
    if a < b {
        Some(Ordering::Less)
    } else if a == b {
        Some(Ordering::Equal)
    } else {
        Some(Ordering::Greater)
    }
}

impl PartialOrd for NodeId {
    fn partial_cmp(&self, other: &NodeId) -> (r: Option<Ordering>) {
        let a = self.index();
        let b = other.index();
        if a < b {
            Some(Ordering::Less)
        } else if a == b {
            Some(Ordering::Equal)
        } else {
            Some(Ordering::Greater)
        }
    }
}

impl PartialOrdSpecImpl for NodeId {
    open spec fn obeys_partial_cmp_spec() -> bool {
        true
    }

    open spec fn partial_cmp_spec(&self, other: &NodeId) -> Option<Ordering> {
        compare_indices(self@, other@)
    }
}

/// Node identifiers compare as their indices do.
pub proof fn lemma_node_ids_ordered_by_index(a: NodeId, b: NodeId)
    ensures
        (vstd::std_specs::cmp::PartialOrdSpec::partial_cmp_spec(&a, &b) == Some(Ordering::Less))
            <==> a@ < b@,
        (vstd::std_specs::cmp::PartialOrdSpec::partial_cmp_spec(&a, &b) == Some(Ordering::Equal))
            <==> a@ == b@,
        (vstd::std_specs::cmp::PartialOrdSpec::partial_cmp_spec(&a, &b) == Some(
            Ordering::Greater,
        )) <==> a@ > b@,
{
}

} // verus!
