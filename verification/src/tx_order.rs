//! The order of transaction ids: by the time their UUIDs carry.

use vstd::prelude::*;
use core::cmp::Ordering;
use vstd::std_specs::cmp::PartialOrdSpecImpl;
use crate::tx::{TxId, tx_time, tx_lt};

verus! {

/// Seconds first, then nanoseconds.
pub open spec fn tx_order(a: TxId, b: TxId) -> Ordering {
    if tx_lt(a, b) {
        Ordering::Less
    } else if tx_lt(b, a) {
        Ordering::Greater
    } else {
        Ordering::Equal
    }
}

impl PartialOrd for TxId {
    fn partial_cmp(&self, other: &Self) -> (r: Option<Ordering>) {
        let ts1 = self.extract_timestamp();
        let ts2 = other.extract_timestamp();
        if ts1.0 < ts2.0 {
            Some(Ordering::Less)
        } else if ts1.0 > ts2.0 {
            Some(Ordering::Greater)
        } else if ts1.1 < ts2.1 {
            Some(Ordering::Less)
        } else if ts1.1 > ts2.1 {
            Some(Ordering::Greater)
        } else {
            Some(Ordering::Equal)
        }
    }
}

impl PartialOrdSpecImpl for TxId {
    open spec fn obeys_partial_cmp_spec() -> bool {
        true
    }

    open spec fn partial_cmp_spec(&self, other: &Self) -> Option<Ordering> {
        Some(tx_order(*self, *other))
    }
}

} // verus!
