//! The keypair that signs every transaction of a run.

use crate::ledger::Address;
use crate::ledger::keypair_accepted;
use crate::ledger::keypair_address;
use vstd::prelude::*;

verus! {

/// A signing keypair: 64 bytes, the secret half first, the public half last.
///
/// A value of this type always holds bytes that the ledger client accepts as
/// a keypair. It has no `Debug` and no `Clone`: the secret is not printed and
/// not copied around.
pub struct Credential {
    bytes: Vec<u8>,
    address: Address,
}

impl Credential {
    #[verifier::type_invariant]
    spec fn well_formed(&self) -> bool {
        &&& keypair_accepted(self.bytes@)
        &&& self.bytes@.len() == 64
        &&& self.address@ == self.bytes@.subrange(32, 64)
    }

    /// The 64 bytes of the keypair.
    pub closed spec fn bytes_view(&self) -> Seq<u8> {
        self.bytes@
    }

    /// The address that the keypair signs for.
    pub closed spec fn address_view(&self) -> Seq<u8> {
        self.address@
    }

    /// The credential that `bytes` hold, if they are a keypair.
    pub fn from_bytes(bytes: Vec<u8>) -> (r: Option<Credential>)
        ensures
            r is Some <==> keypair_accepted(bytes@),
            r matches Some(c) ==> c.bytes_view() == bytes@ && c.address_view() == bytes@.subrange(
                32,
                64,
            ),
    {
        match keypair_address(&bytes) {
            Some(address) => Some(Credential { bytes, address }),
            None => None,
        }
    }

    /// The address that the keypair signs for: the public half of the bytes.
    pub fn address(&self) -> (a: Address)
        ensures
            a@ == self.address_view(),
            a@ == self.bytes_view().subrange(32, 64),
    {
        proof {
            use_type_invariant(self);
        }
        self.address
    }

    /// The 64 bytes of the keypair, which the ledger client accepts.
    pub fn bytes(&self) -> (b: &Vec<u8>)
        ensures
            b@ == self.bytes_view(),
            b@.len() == 64,
            keypair_accepted(b@),
    {
        proof {
            use_type_invariant(self);
        }
        &self.bytes
    }
}

} // verus!
