//! Identities.
//!
//! A principal is a byte string of at most 29 bytes. The relay never looks
//! inside one: it compares principals, keeps them in sets, and asks for their
//! textual form when it stamps a message.

use vstd::prelude::*;
use vstd::slice::slice_to_vec;
use crate::order::bytes_precede;
use crate::order::lemma_bytes_irreflexive;
use crate::order::lemma_bytes_transitive;
use crate::order::rank_bytes;
use crate::order::Key;
use crate::order::Rank;
use crate::ordered_set::OrderedSet;

verus! {

/// The longest byte string that is a principal.
pub const MAX_PRINCIPAL_BYTES: usize = 29;

/// The textual form of the principal with the given bytes: a checksum and
/// the bytes, in base 32, grouped by dashes.
pub uninterp spec fn principal_text(bytes: Seq<u8>) -> Seq<char>;

/// `candid::Principal::to_text` on the principal that `from_slice` makes of
/// `bytes`. The text is a function of the bytes alone; `from_slice` panics on
/// more than 29 bytes, which the precondition leaves out.
#[verifier::external_body]
fn text_of_bytes(bytes: &[u8]) -> (text: String)
    requires
        bytes@.len() <= MAX_PRINCIPAL_BYTES,
    ensures
        text@ == principal_text(bytes@),
{
    candid::Principal::from_slice(bytes).to_text()
}

/// An authenticated identity.
#[derive(Debug)]
pub struct Principal {
    bytes: Vec<u8>,
}

impl View for Principal {
    type V = Seq<u8>;

    closed spec fn view(&self) -> Seq<u8> {
        self.bytes@
    }
}

impl Principal {
    #[verifier::type_invariant]
    spec fn bounded(self) -> bool {
        self.bytes@.len() <= MAX_PRINCIPAL_BYTES
    }

    /// The principal with the given bytes, if they are at most 29.
    pub fn from_slice(bytes: &[u8]) -> (made: Option<Principal>)
        ensures
            made is Some <==> bytes@.len() <= MAX_PRINCIPAL_BYTES,
            made matches Some(p) ==> p@ == bytes@,
    {
        if bytes.len() <= MAX_PRINCIPAL_BYTES {
            Some(Principal { bytes: slice_to_vec(bytes) })
        } else {
            None
        }
    }

    /// The bytes of this principal.
    pub fn as_slice(&self) -> (bytes: &[u8])
        ensures
            bytes@ == self@,
            bytes@.len() <= MAX_PRINCIPAL_BYTES,
    {
        proof {
            use_type_invariant(self);
        }
        self.bytes.as_slice()
    }

    /// The textual form of this principal.
    pub fn to_text(&self) -> (text: String)
        ensures
            text@ == principal_text(self@),
    {
        text_of_bytes(self.as_slice())
    }

    /// Whether two principals are the same identity.
    pub fn same(&self, other: &Principal) -> (equal: bool)
        ensures
            equal == (self@ == other@),
    {
        match rank_bytes(self.bytes.as_slice(), other.bytes.as_slice()) {
            Rank::Same => true,
            _ => false,
        }
    }
}

impl Clone for Principal {
    fn clone(&self) -> (copy: Self)
        ensures
            copy@ == self@,
    {
        self.duplicate()
    }
}

impl Key for Principal {
    open spec fn precedes(a: Seq<u8>, b: Seq<u8>) -> bool {
        bytes_precede(a, b)
    }

    proof fn lemma_irreflexive(a: Seq<u8>) {
        lemma_bytes_irreflexive(a);
    }

    proof fn lemma_transitive(a: Seq<u8>, b: Seq<u8>, c: Seq<u8>) {
        lemma_bytes_transitive(a, b, c);
    }

    fn rank(&self, other: &Self) -> (r: Rank) {
        rank_bytes(self.bytes.as_slice(), other.bytes.as_slice())
    }

    fn duplicate(&self) -> (copy: Self) {
        proof {
            use_type_invariant(self);
        }
        Principal { bytes: slice_to_vec(self.bytes.as_slice()) }
    }
}

/// The views of a list of principals.
pub open spec fn principal_views(list: Seq<Principal>) -> Seq<Seq<u8>> {
    list.map_values(|p: Principal| p@)
}

/// A set of principals: the holders of one role.
pub type PrincipalSet = OrderedSet<Principal>;

} // verus!
