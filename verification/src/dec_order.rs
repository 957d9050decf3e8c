//! Decimals compare by value, as rust_decimal's do: `0.5 == 0.50`.
use crate::decimal::Dec;
use core::cmp::Ordering;
use vstd::prelude::*;

verus! {

impl PartialEq for Dec {
    fn eq(&self, other: &Dec) -> (r: bool) {
        !self.is_lt(other) && !other.is_lt(self)
    }
}

impl vstd::std_specs::cmp::PartialEqSpecImpl for Dec {
    open spec fn obeys_eq_spec() -> bool {
        true
    }

    open spec fn eq_spec(&self, other: &Dec) -> bool {
        self.val() == other.val()
    }
}

impl PartialOrd for Dec {
    fn partial_cmp(&self, other: &Dec) -> (r: Option<Ordering>) {
        if self.is_lt(other) {
            Some(Ordering::Less)
        } else if other.is_lt(self) {
            Some(Ordering::Greater)
        } else {
            Some(Ordering::Equal)
        }
    }
}

impl vstd::std_specs::cmp::PartialOrdSpecImpl for Dec {
    open spec fn obeys_partial_cmp_spec() -> bool {
        true
    }

    open spec fn partial_cmp_spec(&self, other: &Dec) -> Option<Ordering> {
        if self.val() < other.val() {
            Some(Ordering::Less)
        } else if other.val() < self.val() {
            Some(Ordering::Greater)
        } else {
            Some(Ordering::Equal)
        }
    }
}

} // verus!
