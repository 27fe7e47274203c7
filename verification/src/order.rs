//! The order of chunks: a chunk comes before another when its order number
//! is the smaller one. The payloads take no part in it.

use core::cmp::Ordering;
use vstd::prelude::*;
use vstd::std_specs::cmp::PartialOrdSpecImpl;
use crate::parser::PfsChunk;

verus! {

impl<'a> PartialOrd for PfsChunk<'a> {
    fn partial_cmp(&self, other: &PfsChunk<'a>) -> (r: Option<Ordering>) {
        if self.order_number < other.order_number {
            Some(Ordering::Less)
        } else if self.order_number > other.order_number {
            Some(Ordering::Greater)
        } else {
            Some(Ordering::Equal)
        }
    }
}

impl<'a> PartialOrdSpecImpl for PfsChunk<'a> {
    open spec fn obeys_partial_cmp_spec() -> bool {
        true
    }

    open spec fn partial_cmp_spec(&self, other: &PfsChunk<'a>) -> Option<Ordering> {
        if self.order_number < other.order_number {
            Some(Ordering::Less)
        } else if self.order_number > other.order_number {
            Some(Ordering::Greater)
        } else {
            Some(Ordering::Equal)
        }
    }
}

} // verus!
