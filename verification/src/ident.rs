//! Opaque stable identifiers for parties, asset types and account addresses.
//!
//! An identity is a fixed 32-byte value (a public key or a derived address).
//! Equality is the only operation the protocol needs on it.

use vstd::prelude::*;

verus! {

/// A 32-byte identity: a party, an asset type, or an account address.
#[derive(Clone, Copy)]
pub struct Ident {
    bytes: [u8; 32],
}

impl View for Ident {
    type V = Seq<u8>;

    closed spec fn view(&self) -> Seq<u8> {
        self.bytes@
    }
}

impl Ident {
    /// Wraps 32 raw bytes as an identity.
    pub fn new(bytes: [u8; 32]) -> (r: Ident)
        ensures
            r@ == bytes@,
    {
        Ident { bytes }
    }

    /// The raw bytes, for handing to the address deriver.
    pub(crate) fn as_array(&self) -> (r: [u8; 32])
        ensures
            r@ == self@,
    {
        self.bytes
    }

    /// Copies the identity's bytes into a growable buffer.
    pub fn to_vec(&self) -> (r: Vec<u8>)
        ensures
            r@ == self@,
    {
        let mut v: Vec<u8> = Vec::new();
        let mut i: usize = 0;
        while i < 32
            invariant
                i <= 32,
                v@ =~= self@.subrange(0, i as int),
            decreases 32 - i,
        {
            v.push(self.bytes[i]);
            i += 1;
        }
        proof {
            assert(v@ =~= self@);
        }
        v
    }
}

/// Compares two identities byte for byte.
pub fn ident_eq(a: &Ident, b: &Ident) -> (r: bool)
    ensures
        r <==> a@ == b@,
{
    let aa = a.as_array();
    let bb = b.as_array();
    let mut i: usize = 0;
    while i < 32
        invariant
            i <= 32,
            aa@ == a@,
            bb@ == b@,
            forall|j: int| 0 <= j < i ==> aa@[j] == bb@[j],
        decreases 32 - i,
    {
        if aa[i] != bb[i] {
            proof {
                assert(a@[i as int] != b@[i as int]);
            }
            return false;
        }
        i += 1;
    }
    proof {
        assert(a@ =~= b@);
    }
    true
}

} // verus!
