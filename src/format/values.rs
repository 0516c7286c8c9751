//! Value types of their own.
use vstd::prelude::*;

verus! {

/// Relies on `constant_time_eq::constant_time_eq`: true exactly when the two
/// byte strings are equal, compared without branching on their contents.
pub assume_specification[ constant_time_eq::constant_time_eq ](a: &[u8], b: &[u8]) -> (r: bool)
    ensures
        r == (a@ == b@),
;

/// An opaque 20-byte content digest, compared in constant time.
#[derive(Debug, Clone, Copy)]
pub struct Sha1(pub [u8; 20]);

impl PartialEq for Sha1 {
    fn eq(&self, other: &Sha1) -> (r: bool) {
        constant_time_eq::constant_time_eq(self.0.as_slice(), other.0.as_slice())
    }
}

impl vstd::std_specs::cmp::PartialEqSpecImpl for Sha1 {
    open spec fn obeys_eq_spec() -> bool {
        true
    }

    open spec fn eq_spec(&self, other: &Sha1) -> bool {
        self.0@ == other.0@
    }
}

impl Eq for Sha1 {}

impl From<[u8; 20]> for Sha1 {
    fn from(bytes: [u8; 20]) -> (r: Sha1) {
        Sha1(bytes)
    }
}

impl vstd::std_specs::convert::FromSpecImpl<[u8; 20]> for Sha1 {
    open spec fn obeys_from_spec() -> bool {
        true
    }

    open spec fn from_spec(bytes: [u8; 20]) -> Sha1 {
        Sha1(bytes)
    }
}

} // verus!
