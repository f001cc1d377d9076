//! The nullifier ledger: an append-only mapping from serial number to
//! commitment root with unique keys. A serial number transitions from
//! absent to recorded exactly once; recording it again is rejected, which
//! is the sole double-spend defense of the model. No entry is ever removed
//! or mutated.

use vstd::prelude::*;

use crate::errors::LedgerError;
use crate::field::{lemma_eq_by_value, FieldElement};

verus! {

/// Whether `sn` occurs among the serial numbers of `entries`.
pub open spec fn contains_serial(entries: Seq<(FieldElement, FieldElement)>, sn: nat) -> bool {
    exists|i: int| 0 <= i < entries.len() && entries[i].0@ == sn
}

/// The append-only ledger of `(serial_number, root)` pairs.
pub struct Blockchain {
    pub entries: Vec<(FieldElement, FieldElement)>,
}

impl Blockchain {
    /// Well-formedness: every stored element canonical, and no serial
    /// number recorded twice.
    pub open spec fn inv(&self) -> bool {
        &&& forall|i: int|
            0 <= i < self.entries@.len() ==> (#[trigger] self.entries@[i]).0.inv()
                && self.entries@[i].1.inv()
        &&& forall|i: int, j: int|
            0 <= i < j < self.entries@.len() ==> (#[trigger] self.entries@[i]).0@ != (
            #[trigger] self.entries@[j]).0@
    }

    pub fn new() -> (r: Blockchain)
        ensures
            r.inv(),
            r.entries@.len() == 0,
    {
        Blockchain { entries: Vec::new() }
    }

    /// Records `serial_number -> root`. Fails with `DuplicateSerialNumber`
    /// exactly when the serial number is already present; on failure the
    /// ledger is unchanged (check-then-insert, atomic with respect to its
    /// own failure path).
    pub fn append_transaction(&mut self, root: FieldElement, serial_number: FieldElement) -> (r:
        Result<(), LedgerError>)
        requires
            old(self).inv(),
            root.inv(),
            serial_number.inv(),
        ensures
            final(self).inv(),
            match r {
                Ok(()) => !contains_serial(old(self).entries@, serial_number@) && final(
                    self).entries@ == old(self).entries@.push((serial_number, root)),
                Err(e) => contains_serial(old(self).entries@, serial_number@) && *final(self)
                    == *old(self) && e == (LedgerError::DuplicateSerialNumber { serial_number }),
            },
    {
        let mut i: usize = 0;
        while i < self.entries.len()
            invariant
                self.inv(),
                serial_number.inv(),
                i <= self.entries@.len(),
                forall|j: int| 0 <= j < i ==> (#[trigger] self.entries@[j]).0@ != serial_number@,
            decreases self.entries@.len() - i,
        {
            let recorded = self.entries[i].0;
            if recorded == serial_number {
                return Err(LedgerError::DuplicateSerialNumber { serial_number });
            }
            proof {
                if recorded@ == serial_number@ {
                    lemma_eq_by_value(recorded, serial_number);
                }
            }
            i = i + 1;
        }
        self.entries.push((serial_number, root));
        Ok(())
    }

    /// A read-only copy of the recorded `(serial_number, root)` pairs, in
    /// insertion order.
    pub fn dump_transactions(&self) -> (r: Vec<(FieldElement, FieldElement)>)
        ensures
            r@ == self.entries@,
    {
        let mut r: Vec<(FieldElement, FieldElement)> = Vec::new();
        let mut i: usize = 0;
        while i < self.entries.len()
            invariant
                i <= self.entries@.len(),
                r@ == self.entries@.subrange(0, i as int),
            decreases self.entries@.len() - i,
        {
            r.push(self.entries[i]);
            i = i + 1;
        }
        proof {
            assert(r@ =~= self.entries@);
        }
        r
    }
}

impl Default for Blockchain {
    fn default() -> (r: Blockchain)
        ensures
            r.inv(),
            r.entries@.len() == 0,
    {
        Blockchain::new()
    }
}

/// Nullifier uniqueness: once an append with serial number `sn` has
/// succeeded, the ledger contains `sn`, so by `append_transaction`'s
/// contract every later append with the same serial number — whatever root
/// it carries — is rejected with `DuplicateSerialNumber`.
pub proof fn lemma_nullifier_unique(
    entries: Seq<(FieldElement, FieldElement)>,
    sn: FieldElement,
    root: FieldElement,
)
    ensures
        contains_serial(entries.push((sn, root)), sn@),
{
    assert(entries.push((sn, root))[entries.len() as int].0@ == sn@);
}

} // verus!
