//! Hash validation: recomputes a commitment hash over a vector of field
//! elements (or of folded spend keys) and checks it against a publicly
//! claimed value. A mismatch is reported as `CommitmentInconsistency`
//! with the claimed and the recomputed element.

use vstd::prelude::*;

use crate::errors::LedgerError;
use crate::field::{lemma_eq_by_value, FieldElement};
use crate::merkle::{all_valid, seq_values};
use crate::oracle::{hash_fields, hash_many_values};
use crate::spend_key::{spend_key_value, SpendKey};

verus! {

/// Namespace of the plain hash-validation operation.
pub struct ZcashHashGadget;

impl ZcashHashGadget {
    /// Hashes `field_elements` and compares the result with `public_hash`;
    /// returns the recomputed hash exactly when the two agree.
    pub fn hash_scalar_fields(field_elements: &Vec<FieldElement>, public_hash: &FieldElement) -> (r:
        Result<FieldElement, LedgerError>)
        requires
            all_valid(field_elements@),
            public_hash.inv(),
        ensures
            match r {
                Ok(h) => h == *public_hash && h@ == hash_many_values(seq_values(field_elements@)),
                Err(e) => {
                    &&& hash_many_values(seq_values(field_elements@)) != public_hash@
                    &&& e matches LedgerError::CommitmentInconsistency { expected, actual }
                    &&& e matches LedgerError::CommitmentInconsistency { expected, actual } ==> {
                        &&& expected == *public_hash
                        &&& actual@ == hash_many_values(seq_values(field_elements@))
                    }
                },
            },
    {
        let h = hash_fields(field_elements);
        if h == *public_hash {
            Ok(h)
        } else {
            proof {
                if h@ == public_hash@ {
                    lemma_eq_by_value(h, *public_hash);
                }
            }
            Err(LedgerError::CommitmentInconsistency { expected: *public_hash, actual: h })
        }
    }
}

/// Namespace of the ledger-side hash validations.
pub struct PublicLedgerGadget;

impl PublicLedgerGadget {
    /// Validates the claimed hash of a transaction's field elements:
    /// recomputes it and compares.
    pub fn validate_scalar_transaction_hash(
        transaction_hash: &FieldElement,
        transactions: &Vec<FieldElement>,
    ) -> (r: Result<FieldElement, LedgerError>)
        requires
            all_valid(transactions@),
            transaction_hash.inv(),
        ensures
            match r {
                Ok(h) => h == *transaction_hash && h@ == hash_many_values(
                    seq_values(transactions@),
                ),
                Err(e) => {
                    &&& hash_many_values(seq_values(transactions@)) != transaction_hash@
                    &&& e matches LedgerError::CommitmentInconsistency { expected, actual }
                    &&& e matches LedgerError::CommitmentInconsistency { expected, actual } ==> {
                        &&& expected == *transaction_hash
                        &&& actual@ == hash_many_values(seq_values(transactions@))
                    }
                },
            },
    {
        ZcashHashGadget::hash_scalar_fields(transactions, transaction_hash)
    }

    /// Validates the claimed hash over a batch of spend keys: each key is
    /// folded to its field element first, then the vector is hashed and
    /// compared.
    pub fn validate_scalar_spend_key_hash(
        spend_key_hash: &FieldElement,
        spend_keys: &Vec<SpendKey>,
    ) -> (r: Result<FieldElement, LedgerError>)
        requires
            forall|i: int| 0 <= i < spend_keys@.len() ==> (#[trigger] spend_keys@[i]).inv(),
            spend_key_hash.inv(),
        ensures
            match r {
                Ok(h) => h == *spend_key_hash && h@ == hash_many_values(
                    spend_keys@.map(|i: int, k: SpendKey| spend_key_value(k)),
                ),
                Err(e) => {
                    &&& hash_many_values(spend_keys@.map(|i: int, k: SpendKey| spend_key_value(k)))
                        != spend_key_hash@
                    &&& e matches LedgerError::CommitmentInconsistency { expected, actual }
                    &&& e matches LedgerError::CommitmentInconsistency { expected, actual } ==> {
                        &&& expected == *spend_key_hash
                        &&& actual@ == hash_many_values(
                            spend_keys@.map(|i: int, k: SpendKey| spend_key_value(k)),
                        )
                    }
                },
            },
    {
        let mut mapped: Vec<FieldElement> = Vec::new();
        let mut i: usize = 0;
        while i < spend_keys.len()
            invariant
                forall|j: int| 0 <= j < spend_keys@.len() ==> (#[trigger] spend_keys@[j]).inv(),
                i <= spend_keys@.len(),
                mapped@.len() == i,
                all_valid(mapped@),
                forall|j: int| 0 <= j < i ==> #[trigger] mapped@[j]@ == spend_key_value(
                    spend_keys@[j],
                ),
            decreases spend_keys@.len() - i,
        {
            let k = spend_keys[i];
            mapped.push(k.to_fr());
            i = i + 1;
        }
        proof {
            assert(seq_values(mapped@) =~= spend_keys@.map(
                |j: int, k: SpendKey| spend_key_value(k),
            ));
        }
        ZcashHashGadget::hash_scalar_fields(&mapped, spend_key_hash)
    }
}

} // verus!
