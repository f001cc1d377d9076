//! The error taxonomy of the core. Every invalid-but-expected input is
//! reported through one of these variants; no operation aborts the process.
//! Each variant carries enough context for a caller to act on it without
//! parsing text.

use vstd::prelude::*;

use crate::field::FieldElement;

verus! {

#[derive(Clone, Copy, Debug, PartialEq, Eq, Structural)]
pub enum LedgerError {
    /// Tree folding was given a leaf sequence whose length is odd at some
    /// level; `leaf_count` is the offending input length.
    InvalidLeafCount { leaf_count: usize },
    /// A commitment does not match the content it was checked against.
    CommitmentInconsistency { expected: FieldElement, actual: FieldElement },
    /// Split values do not sum to the value they are drawn from.
    ValueConservationViolation { expected: FieldElement, actual: FieldElement },
    /// The serial number is already recorded in the ledger.
    DuplicateSerialNumber { serial_number: FieldElement },
    /// No coin with this id exists in the spend-key map.
    UnknownCoinId { coin_id: usize },
    /// The spend-key map holds no entries.
    EmptyMap,
}

} // verus!
