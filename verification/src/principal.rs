//! Caller identities.
//!
//! An identity is an opaque string of at most twenty-nine bytes. One value,
//! the anonymous identity, stands for a caller that did not identify itself.

use vstd::prelude::*;
use vstd::slice::slice_to_vec;

verus! {

/// The greatest number of bytes an identity may hold.
pub const MAX_PRINCIPAL_LEN: usize = 29;

/// The bytes of the anonymous identity.
pub open spec fn anonymous_id() -> Seq<u8> {
    seq![4u8]
}

/// The identity of a caller or an owner, held as its raw bytes.
#[derive(Debug, PartialEq, Eq)]
pub struct Principal {
    bytes: Vec<u8>,
}

impl View for Principal {
    type V = Seq<u8>;

    closed spec fn view(&self) -> Seq<u8> {
        self.bytes@
    }
}

/// `candid::Principal::anonymous`, handed out as its significant bytes
/// (`as_slice`). The source builds it with length one and the single byte 4.
#[verifier::external_body]
fn anonymous_bytes() -> (r: Vec<u8>)
    ensures
        r@ == anonymous_id(),
{
    candid::Principal::anonymous().as_slice().to_vec()
}

/// `candid::Principal::try_from_slice`, reduced to whether it accepts the
/// bytes. The source refuses a slice exactly when it is longer than
/// twenty-nine bytes.
#[verifier::external_body]
fn accepted_length(bytes: &[u8]) -> (r: bool)
    ensures
        r == (bytes@.len() <= MAX_PRINCIPAL_LEN),
{
    candid::Principal::try_from_slice(bytes).is_ok()
}

impl Principal {
    #[verifier::type_invariant]
    spec fn bounded(self) -> bool {
        self.bytes@.len() <= MAX_PRINCIPAL_LEN
    }

    /// The identity with the given bytes, or `None` if there are more than
    /// twenty-nine of them.
    pub fn from_slice(bytes: &[u8]) -> (r: Option<Principal>)
        ensures
            r is Some <==> bytes@.len() <= MAX_PRINCIPAL_LEN,
            r matches Some(p) ==> p@ == bytes@,
    {
        if !accepted_length(bytes) {
            return None;
        }
        Some(Principal { bytes: slice_to_vec(bytes) })
    }

    /// The anonymous identity.
    pub fn anonymous() -> (r: Principal)
        ensures
            r@ == anonymous_id(),
    {
        Principal { bytes: anonymous_bytes() }
    }

    /// Whether this is the anonymous identity.
    pub fn is_anonymous(&self) -> (r: bool)
        ensures
            r == (self@ == anonymous_id()),
    {
        let anonymous = Principal::anonymous();
        self.same(&anonymous)
    }

    /// Whether the two identities are the same.
    pub fn same(&self, other: &Principal) -> (r: bool)
        ensures
            r == (self@ == other@),
    {
        if self.bytes.len() != other.bytes.len() {
            return false;
        }
        let mut i: usize = 0;
        while i < self.bytes.len()
            invariant
                i <= self.bytes@.len(),
                self.bytes@.len() == other.bytes@.len(),
                self.bytes@.subrange(0, i as int) == other.bytes@.subrange(0, i as int),
            decreases self.bytes@.len() - i,
        {
            if self.bytes[i] != other.bytes[i] {
                return false;
            }
            i += 1;
        }
        assert(self.bytes@ =~= self.bytes@.subrange(0, i as int));
        assert(other.bytes@ =~= other.bytes@.subrange(0, i as int));
        true
    }

    /// The bytes of the identity, of which there are at most twenty-nine.
    pub fn as_slice(&self) -> (r: &[u8])
        ensures
            r@ == self@,
            r@.len() <= MAX_PRINCIPAL_LEN,
    {
        proof {
            use_type_invariant(self);
        }
        self.bytes.as_slice()
    }
}

impl Clone for Principal {
    fn clone(&self) -> (r: Principal)
        ensures
            r@ == self@,
    {
        proof {
            use_type_invariant(self);
        }
        Principal { bytes: slice_to_vec(self.bytes.as_slice()) }
    }
}

} // verus!
