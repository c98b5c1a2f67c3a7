//! Equality and ordering of versions, component by component as numbers.

use core::cmp::Ordering;
use vstd::prelude::*;

use crate::version::{version_compare, Version};

verus! {

/// The `Ordering` that a comparison result of -1, 0 or 1 stands for.
pub open spec fn ordering_of(c: int) -> Ordering {
    if c < 0 {
        Ordering::Less
    } else if c == 0 {
        Ordering::Equal
    } else {
        Ordering::Greater
    }
}

impl PartialEq for Version {
    fn eq(&self, other: &Self) -> (r: bool) {
        match self.compare(other) {
            Some(c) => c == 0,
            None => false,
        }
    }
}

impl Eq for Version {

}

impl vstd::std_specs::cmp::PartialEqSpecImpl for Version {
    open spec fn obeys_eq_spec() -> bool {
        true
    }

    open spec fn eq_spec(&self, other: &Version) -> bool {
        version_compare(self@, other@) == Some(0int)
    }
}

impl PartialOrd for Version {
    fn partial_cmp(&self, other: &Self) -> (r: Option<Ordering>) {
        match self.compare(other) {
            Some(c) => {
                if c < 0 {
                    Some(Ordering::Less)
                } else if c == 0 {
                    Some(Ordering::Equal)
                } else {
                    Some(Ordering::Greater)
                }
            },
            None => None,
        }
    }
}

impl vstd::std_specs::cmp::PartialOrdSpecImpl for Version {
    open spec fn obeys_partial_cmp_spec() -> bool {
        true
    }

    open spec fn partial_cmp_spec(&self, other: &Version) -> Option<Ordering> {
        match version_compare(self@, other@) {
            Some(c) => Some(ordering_of(c)),
            None => None,
        }
    }
}

} // verus!
