//! Tuples compared by their binary forms.

use crate::tuple::order::{bytes_less, compare_bytes, BinaryOrder};
use crate::tuple::tuple::Tuple;
use crate::util::Serializable;
use std::cmp::Ordering;
use vstd::prelude::*;

verus! {

impl Tuple {
    /// Compares two tuples by their binary forms.
    pub fn cmp_binary(&self, other: &Tuple) -> (r: Ordering)
        ensures
            r is Less <==> bytes_less(self@.encode(), other@.encode()),
            r is Equal <==> self@.encode() == other@.encode(),
            r is Greater <==> bytes_less(other@.encode(), self@.encode()),
    {
        let tuple1 = self.serialize();
        let tuple2 = other.serialize();
        Tuple::cmp_serialized(tuple1.as_slice(), tuple2.as_slice())
    }

    /// Compares two binary forms byte by byte; of two forms of which one is
    /// the start of the other, the shorter comes first.
    pub fn cmp_serialized(tuple1: &[u8], tuple2: &[u8]) -> (r: Ordering)
        ensures
            r is Less <==> bytes_less(tuple1@, tuple2@),
            r is Equal <==> tuple1@ == tuple2@,
            r is Greater <==> bytes_less(tuple2@, tuple1@),
    {
        proof {
            crate::tuple::order::lemma_less_total(tuple1@, tuple2@);
        }
        match compare_bytes(tuple1, tuple2) {
            BinaryOrder::Before => Ordering::Less,
            BinaryOrder::Same => Ordering::Equal,
            BinaryOrder::After => Ordering::Greater,
        }
    }
}

} // verus!
