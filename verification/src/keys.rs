//! Key derivation: spend addresses and serial numbers (nullifiers), both
//! derived from caller-supplied secret field elements through the hash
//! oracle. The caller is responsible for the secrets' randomness and
//! uniqueness; nothing here validates them.

use vstd::prelude::*;

use crate::field::FieldElement;
use crate::oracle::{hash_one_value, hash_single};

verus! {

/// A spend address: a public/secret key pair with the public key bound to
/// the secret by the hash oracle.
#[derive(Clone, Copy, Debug, PartialEq, Eq, Structural)]
pub struct Address {
    pub public_key: FieldElement,
    pub secret_key: FieldElement,
}

impl Address {
    /// Well-formedness: both keys canonical, and the public key is the
    /// hash of the secret key.
    pub open spec fn inv(&self) -> bool {
        &&& self.public_key.inv()
        &&& self.secret_key.inv()
        &&& self.public_key@ == hash_one_value(self.secret_key@)
    }

    /// Derives the address of `secret_key`: the public key is the hash of
    /// the secret key.
    pub fn new(secret_key: FieldElement) -> (r: Address)
        requires
            secret_key.inv(),
        ensures
            r.inv(),
            r.secret_key == secret_key,
    {
        let public_key = hash_single(&secret_key);
        Address { public_key, secret_key }
    }

    pub fn public_key(&self) -> (r: FieldElement)
        ensures
            r == self.public_key,
    {
        self.public_key
    }

    pub fn secret_key(&self) -> (r: FieldElement)
        ensures
            r == self.secret_key,
    {
        self.secret_key
    }
}

/// A serial number (nullifier): the hash of a secret seed, representing a
/// spend-once credential. Immutable once derived.
#[derive(Clone, Copy, Debug, PartialEq, Eq, Structural)]
pub struct TransactionSerialNumber {
    pub value: FieldElement,
}

impl TransactionSerialNumber {
    /// Well-formedness: the stored element is canonical.
    pub open spec fn inv(&self) -> bool {
        self.value.inv()
    }

    /// Derives the serial number of the secret seed `p`: `sn = hash(p)`.
    pub fn new(p: FieldElement) -> (r: TransactionSerialNumber)
        requires
            p.inv(),
        ensures
            r.inv(),
            r.value@ == hash_one_value(p@),
    {
        TransactionSerialNumber { value: hash_single(&p) }
    }

    pub fn sn(&self) -> (r: FieldElement)
        ensures
            r == self.value,
    {
        self.value
    }
}

} // verus!
