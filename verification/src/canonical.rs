//! `==` and `<` on tokens: the canonical order, by chain and then by
//! address. Two tokens are equal when they have the same chain and the same
//! address, whatever their other fields hold.

use vstd::prelude::*;
use vstd::std_specs::cmp::{PartialEqSpecImpl, PartialOrdSpecImpl};
use core::cmp::Ordering;
use crate::token::{key_lt, TokenInfo};

verus! {

impl PartialEq for TokenInfo {
    fn eq(&self, other: &TokenInfo) -> (r: bool) {
        self.same_key(other)
    }
}

impl PartialEqSpecImpl for TokenInfo {
    open spec fn obeys_eq_spec() -> bool {
        true
    }

    open spec fn eq_spec(&self, other: &TokenInfo) -> bool {
        self@.key() == other@.key()
    }
}

impl PartialOrd for TokenInfo {
    fn partial_cmp(&self, other: &TokenInfo) -> (r: Option<Ordering>) {
        if self.precedes(other) {
            Some(Ordering::Less)
        } else if other.precedes(self) {
            Some(Ordering::Greater)
        } else {
            Some(Ordering::Equal)
        }
    }
}

impl PartialOrdSpecImpl for TokenInfo {
    open spec fn obeys_partial_cmp_spec() -> bool {
        true
    }

    open spec fn partial_cmp_spec(&self, other: &TokenInfo) -> Option<Ordering> {
        if key_lt(self@.key(), other@.key()) {
            Some(Ordering::Less)
        } else if key_lt(other@.key(), self@.key()) {
            Some(Ordering::Greater)
        } else {
            Some(Ordering::Equal)
        }
    }
}

} // verus!
