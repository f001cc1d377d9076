use shielded_ledger::coin::ZcashCoinGadget;
use shielded_ledger::errors::LedgerError;
use shielded_ledger::field::FieldElement;
use shielded_ledger::keys::Address;
use shielded_ledger::merkle::MerkleTreeGadget;
use shielded_ledger::spend_key::SpendKey;
use shielded_ledger::validate::{PublicLedgerGadget, ZcashHashGadget};

fn fe(v: u64) -> FieldElement {
    FieldElement::from_u64(v)
}

/// The hash of a vector, obtained through the mismatch report: a wrong
/// claim is rejected and the error carries the recomputed value.
fn hash_of(elements: &Vec<FieldElement>, wrong_claim: FieldElement) -> FieldElement {
    match ZcashHashGadget::hash_scalar_fields(elements, &wrong_claim) {
        Err(LedgerError::CommitmentInconsistency { expected, actual }) => {
            assert_eq!(expected, wrong_claim);
            actual
        }
        other => panic!("expected a mismatch report, got {:?}", other),
    }
}

#[test]
fn hash_validation_accepts_exactly_the_recomputed_value() {
    let elements = vec![fe(1), fe(2), fe(3)];
    let h = hash_of(&elements, fe(0));
    assert_ne!(h, fe(0));
    assert_eq!(ZcashHashGadget::hash_scalar_fields(&elements, &h), Ok(h));
}

#[test]
fn hash_validation_depends_on_order() {
    let forward = hash_of(&vec![fe(1), fe(2)], fe(0));
    let backward = hash_of(&vec![fe(2), fe(1)], fe(0));
    assert_ne!(forward, backward);
}

#[test]
fn transaction_hash_validation_matches_plain_validation() {
    let elements = vec![fe(4), fe(5)];
    let h = hash_of(&elements, fe(0));
    assert_eq!(
        PublicLedgerGadget::validate_scalar_transaction_hash(&h, &elements),
        Ok(h)
    );
    match PublicLedgerGadget::validate_scalar_transaction_hash(&fe(1), &elements) {
        Err(LedgerError::CommitmentInconsistency { expected, actual }) => {
            assert_eq!(expected, fe(1));
            assert_eq!(actual, h);
        }
        other => panic!("expected a mismatch report, got {:?}", other),
    }
}

#[test]
fn spend_key_hash_validation_folds_keys_first() {
    let keys = vec![SpendKey::new(fe(5), true, 7), SpendKey::new(fe(6), false, 2)];
    // to_fr folds each key: 5 + 7 + 1 = 13 and 6 + 2 + 0 = 8
    let folded = vec![fe(13), fe(8)];
    let h = hash_of(&folded, fe(0));
    assert_eq!(
        PublicLedgerGadget::validate_scalar_spend_key_hash(&h, &keys),
        Ok(h)
    );
    match PublicLedgerGadget::validate_scalar_spend_key_hash(&fe(2), &keys) {
        Err(LedgerError::CommitmentInconsistency { expected, actual }) => {
            assert_eq!(expected, fe(2));
            assert_eq!(actual, h);
        }
        other => panic!("expected a mismatch report, got {:?}", other),
    }
}

#[test]
fn generated_coin_has_the_documented_shape() {
    let out = ZcashCoinGadget::generate_coin_from_scalar_fields(fe(9), fe(17), fe(25));
    assert_eq!(out.len(), 4);
    assert_eq!(out[1], fe(9));
    assert_eq!(out[2], fe(17));
    assert_eq!(out[3], Address::new(fe(25)).public_key());
    let pair = vec![fe(9), fe(9)];
    assert_eq!(out[0], MerkleTreeGadget::build_root(&pair).unwrap());
}
