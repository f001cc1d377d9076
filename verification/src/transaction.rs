//! Transactions: a value transfer between two derived addresses, committed
//! to by folding its fixed 7-element leaf vector (padded to 8 for the
//! accumulator) into a single root, and splittable into value-conserving
//! child transactions.

use vstd::prelude::*;

use crate::errors::LedgerError;
use crate::field::{fe_add, fe_add_spec, lemma_eq_by_value, FieldElement};
use crate::keys::{Address, TransactionSerialNumber};
use crate::merkle::{
    all_valid, is_pow2, lemma_proof_round_trip, root_of, seq_values,
    MerkleTreeGadget,
};
use crate::oracle::hash_one_value;

verus! {

/// The sum of a sequence of canonical values, reduced modulo the field
/// order after every addition (left to right).
pub open spec fn fe_sum(s: Seq<nat>) -> nat
    decreases s.len(),
{
    if s.len() == 0 {
        0
    } else {
        fe_add_spec(fe_sum(s.drop_last()), s.last())
    }
}

/// Adds up a vector of field elements with the trusted modular addition.
fn sum_fields(values: &Vec<FieldElement>) -> (r: FieldElement)
    requires
        all_valid(values@),
    ensures
        r.inv(),
        r@ == fe_sum(seq_values(values@)),
{
    let mut acc = FieldElement::zero();
    let mut i: usize = 0;
    proof {
        assert(seq_values(values@).take(0) =~= Seq::<nat>::empty());
    }
    while i < values.len()
        invariant
            all_valid(values@),
            i <= values@.len(),
            acc.inv(),
            acc@ == fe_sum(seq_values(values@).take(i as int)),
        decreases values@.len() - i,
    {
        let ghost prev = seq_values(values@).take(i as int);
        acc = fe_add(&acc, &values[i]);
        i = i + 1;
        proof {
            let cur = seq_values(values@).take(i as int);
            assert(cur.drop_last() =~= prev);
            assert(cur.last() == values@[i - 1]@);
        }
    }
    proof {
        assert(seq_values(values@).take(values@.len() as int) =~= seq_values(values@));
    }
    acc
}

/// A transaction between a sender and a receiver. The leaf vector below is
/// the commitment schema; its order must never change without versioning.
#[derive(Clone, Copy, Debug, PartialEq, Eq, Structural)]
pub struct Transaction {
    pub transaction_id: FieldElement,
    pub value: FieldElement,
    pub sender_address: Address,
    pub receiver_address: Address,
    pub serial_number: TransactionSerialNumber,
}

/// The fixed 7-element commitment leaf vector of a transaction.
pub open spec fn leaf_vector_spec(t: Transaction) -> Seq<FieldElement> {
    seq![
        t.transaction_id,
        t.value,
        t.sender_address.public_key,
        t.sender_address.secret_key,
        t.receiver_address.public_key,
        t.receiver_address.secret_key,
        t.serial_number.value,
    ]
}

/// The leaf vector padded with a zero element to the power-of-two length
/// the accumulator folds.
pub open spec fn commitment_leaves(t: Transaction) -> Seq<FieldElement> {
    leaf_vector_spec(t).push(FieldElement { limb0: 0, limb1: 0, limb2: 0, limb3: 0 })
}

impl Transaction {
    /// Well-formedness: every field element canonical and both addresses
    /// bound to their secrets.
    pub open spec fn inv(&self) -> bool {
        &&& self.transaction_id.inv()
        &&& self.value.inv()
        &&& self.sender_address.inv()
        &&& self.receiver_address.inv()
        &&& self.serial_number.inv()
    }

    /// Builds a transaction: the addresses and the serial number are
    /// derived from the given secrets; `transaction_id` and `value` are
    /// stored as given, without validation.
    pub fn new(
        transaction_id: FieldElement,
        value: FieldElement,
        sender_address_secret: FieldElement,
        receiver_address_secret: FieldElement,
        sn_secret: FieldElement,
    ) -> (r: Transaction)
        requires
            transaction_id.inv(),
            value.inv(),
            sender_address_secret.inv(),
            receiver_address_secret.inv(),
            sn_secret.inv(),
        ensures
            r.inv(),
            r.transaction_id == transaction_id,
            r.value == value,
            r.sender_address.secret_key == sender_address_secret,
            r.receiver_address.secret_key == receiver_address_secret,
            r.serial_number.value@ == hash_one_value(sn_secret@),
    {
        Transaction {
            transaction_id,
            value,
            sender_address: Address::new(sender_address_secret),
            receiver_address: Address::new(receiver_address_secret),
            serial_number: TransactionSerialNumber::new(sn_secret),
        }
    }

    pub fn transaction_id(&self) -> (r: FieldElement)
        ensures
            r == self.transaction_id,
    {
        self.transaction_id
    }

    pub fn value(&self) -> (r: FieldElement)
        ensures
            r == self.value,
    {
        self.value
    }

    pub fn sender_address(&self) -> (r: Address)
        ensures
            r == self.sender_address,
    {
        self.sender_address
    }

    pub fn receiver_address(&self) -> (r: Address)
        ensures
            r == self.receiver_address,
    {
        self.receiver_address
    }

    pub fn serial_number(&self) -> (r: FieldElement)
        ensures
            r == self.serial_number.value,
    {
        self.serial_number.sn()
    }

    /// The commitment leaf vector:
    /// `[id, value, sender.pk, sender.sk, receiver.pk, receiver.sk, sn]`.
    pub fn to_vec(&self) -> (r: Vec<FieldElement>)
        ensures
            r@ == leaf_vector_spec(*self),
    {
        let mut r: Vec<FieldElement> = Vec::new();
        r.push(self.transaction_id);
        r.push(self.value);
        r.push(self.sender_address.public_key());
        r.push(self.sender_address.secret_key());
        r.push(self.receiver_address.public_key());
        r.push(self.receiver_address.secret_key());
        r.push(self.serial_number.sn());
        proof {
            assert(r@ =~= leaf_vector_spec(*self));
        }
        r
    }

    /// The transaction's commitment root. Every element of the leaf vector
    /// is first proof-checked individually against the root built over the
    /// whole (padded) vector; only then is the root returned. The check is
    /// proved to pass on every well-formed transaction, so the result is
    /// always `Ok`.
    pub fn root(&self) -> (r: Result<FieldElement, LedgerError>)
        requires
            self.inv(),
        ensures
            r is Ok,
            r matches Ok(root) ==> root.inv() && root@ == root_of(
                seq_values(commitment_leaves(*self)),
            ),
    {
        let mut leaves = self.to_vec();
        leaves.push(FieldElement::zero());
        proof {
            assert(leaves@ =~= commitment_leaves(*self));
            assert(is_pow2(leaves@.len())) by {
                reveal_with_fuel(is_pow2, 5);
            }
            assert(all_valid(leaves@));
        }
        let root = match MerkleTreeGadget::build_root(&leaves) {
            Ok(root) => root,
            Err(e) => {
                return Err(e);
            },
        };
        let mut idx: usize = 0;
        while idx < 7
            invariant
                self.inv(),
                idx <= 7,
                leaves@ == commitment_leaves(*self),
                all_valid(leaves@),
                is_pow2(leaves@.len()),
                root.inv(),
                root@ == root_of(seq_values(leaves@)),
            decreases 7 - idx,
        {
            let path = match MerkleTreeGadget::generate_proof(&leaves, idx) {
                Ok(path) => path,
                Err(e) => {
                    return Err(e);
                },
            };
            let valid = MerkleTreeGadget::verify_proof(&leaves[idx], idx, &path, &root);
            proof {
                lemma_proof_round_trip(seq_values(leaves@), idx as int);
                assert(seq_values(leaves@)[idx as int] == leaves@[idx as int]@);
            }
            if !valid {
                return Err(LedgerError::CommitmentInconsistency {
                    expected: root,
                    actual: leaves[idx],
                });
            }
            idx = idx + 1;
        }
        Ok(root)
    }

    /// Splits this transaction's value into children, one per split value.
    /// Succeeds exactly when the split values sum (in the field) to the
    /// transaction's value; each child carries the corresponding value and
    /// receiver, the same sender, its split index as id, and a serial
    /// number derived from the caller-supplied fresh secret.
    pub fn split_transaction(
        &self,
        split_values: &Vec<FieldElement>,
        new_receiver_addresses: &Vec<Address>,
        sender_address_secret: &FieldElement,
        sn_secrets: &Vec<FieldElement>,
    ) -> (r: Result<Vec<Transaction>, LedgerError>)
        requires
            self.inv(),
            all_valid(split_values@),
            all_valid(sn_secrets@),
            sender_address_secret.inv(),
            forall|i: int|
                0 <= i < new_receiver_addresses@.len() ==> new_receiver_addresses@[i].inv(),
            split_values@.len() == new_receiver_addresses@.len(),
            sn_secrets@.len() == split_values@.len(),
        ensures
            match r {
                Ok(children) => {
                    &&& fe_sum(seq_values(split_values@)) == self.value@
                    &&& children@.len() == split_values@.len()
                    &&& forall|i: int|
                        0 <= i < children@.len() ==> {
                            let c = #[trigger] children@[i];
                            &&& c.inv()
                            &&& c.transaction_id@ == i
                            &&& c.value == split_values@[i]
                            &&& c.sender_address.secret_key == *sender_address_secret
                            &&& c.receiver_address == new_receiver_addresses@[i]
                            &&& c.serial_number.value@ == hash_one_value(sn_secrets@[i]@)
                        }
                },
                Err(e) => {
                    &&& fe_sum(seq_values(split_values@)) != self.value@
                    &&& e matches LedgerError::ValueConservationViolation { expected, actual }
                    &&& e matches LedgerError::ValueConservationViolation { expected, actual } ==> {
                        &&& expected == self.value
                        &&& actual.inv()
                        &&& actual@ == fe_sum(seq_values(split_values@))
                    }
                },
            },
    {
        let total = sum_fields(split_values);
        if !(total == self.value) {
            proof {
                if total@ == self.value@ {
                    lemma_eq_by_value(total, self.value);
                }
            }
            return Err(LedgerError::ValueConservationViolation {
                expected: self.value,
                actual: total,
            });
        }
        let mut children: Vec<Transaction> = Vec::new();
        let mut i: usize = 0;
        while i < split_values.len()
            invariant
                self.inv(),
                all_valid(split_values@),
                all_valid(sn_secrets@),
                sender_address_secret.inv(),
                forall|j: int|
                    0 <= j < new_receiver_addresses@.len() ==> new_receiver_addresses@[j].inv(),
                split_values@.len() == new_receiver_addresses@.len(),
                sn_secrets@.len() == split_values@.len(),
                i <= split_values@.len(),
                children@.len() == i,
                forall|j: int|
                    0 <= j < i ==> {
                        let c = #[trigger] children@[j];
                        &&& c.inv()
                        &&& c.transaction_id@ == j
                        &&& c.value == split_values@[j]
                        &&& c.sender_address.secret_key == *sender_address_secret
                        &&& c.receiver_address == new_receiver_addresses@[j]
                        &&& c.serial_number.value@ == hash_one_value(sn_secrets@[j]@)
                    },
            decreases split_values@.len() - i,
        {
            let child = Transaction {
                transaction_id: FieldElement::from_u64(i as u64),
                value: split_values[i],
                sender_address: Address::new(*sender_address_secret),
                receiver_address: new_receiver_addresses[i],
                serial_number: TransactionSerialNumber::new(sn_secrets[i]),
            };
            children.push(child);
            i = i + 1;
        }
        Ok(children)
    }
}

} // verus!
