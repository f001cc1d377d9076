use shielded_ledger::circuits::{
    CoinCircuit, HashTwoFqCircuit, MerkleTreeCircuit, PublicLedgerCircuit, SpendCircuit, TCircuit,
};
use shielded_ledger::coin::ZcashCoinGadget;
use shielded_ledger::errors::LedgerError;
use shielded_ledger::field::FieldElement;
use shielded_ledger::keys::Address;
use shielded_ledger::merkle::MerkleTreeGadget;
use shielded_ledger::validate::ZcashHashGadget;

use ark_ff::{BigInteger, PrimeField};

fn fe(v: u64) -> FieldElement {
    FieldElement::from_u64(v)
}

/// The hash of a vector, recovered from the mismatch report of a wrong
/// claim.
fn hash_of(elements: &Vec<FieldElement>) -> FieldElement {
    let wrong = fe(u64::MAX);
    match ZcashHashGadget::hash_scalar_fields(elements, &wrong) {
        Err(LedgerError::CommitmentInconsistency { actual, .. }) => actual,
        other => panic!("expected a mismatch report, got {:?}", other),
    }
}

#[test]
fn serialization_matches_reference_encoding() {
    for v in [0u64, 1, 255, 256, u64::MAX] {
        let bytes = fe(v).to_le_bytes();
        let expected = ark_bn254::Fr::from(v).into_bigint().to_bytes_le();
        assert_eq!(bytes, expected);
    }
}

#[test]
fn hash_two_step_duplicates_the_digest() {
    let circuit = HashTwoFqCircuit::new();
    assert_eq!(circuit.state_len(), 2);
    assert_eq!(circuit.external_inputs_len(), 0);
    let out = circuit.step_native(0, vec![fe(3), fe(4)], Vec::new()).unwrap();
    assert_eq!(out.len(), 2);
    assert_eq!(out[0], out[1]);
    // the digest is the pair fold of the two inputs
    assert_eq!(out[0], MerkleTreeGadget::build_root(&vec![fe(3), fe(4)]).unwrap());
}

#[test]
fn merkle_step_replicates_the_root() {
    let circuit = MerkleTreeCircuit::new();
    assert_eq!(circuit.state_len(), 4);
    let state = vec![fe(10), fe(20), fe(30), fe(40)];
    let out = circuit.step_native(0, state.clone(), Vec::new()).unwrap();
    let root = MerkleTreeGadget::build_root(&state).unwrap();
    assert_eq!(out, vec![root, root, root, root]);
    assert_eq!(
        circuit.step_native(0, vec![fe(1), fe(2), fe(3)], Vec::new()),
        Err(LedgerError::InvalidLeafCount { leaf_count: 3 })
    );
}

#[test]
fn coin_step_matches_the_coin_gadget() {
    let circuit = CoinCircuit::new();
    let out = circuit.step_native(0, vec![fe(9), fe(17), fe(25)], Vec::new()).unwrap();
    assert_eq!(out, ZcashCoinGadget::generate_coin_from_scalar_fields(fe(9), fe(17), fe(25)));
    assert_eq!(out[3], Address::new(fe(25)).public_key());
}

#[test]
fn spend_step_hashes_each_element() {
    let circuit = SpendCircuit::new();
    let out = circuit.step_native(0, vec![fe(5), fe(6), fe(0)], Vec::new()).unwrap();
    assert_eq!(out.len(), 2);
    assert_eq!(out[0], Address::new(fe(5)).public_key());
    assert_eq!(out[1], Address::new(fe(6)).public_key());
}

#[test]
fn public_ledger_step_validates_both_halves() {
    let circuit = PublicLedgerCircuit::new();
    assert_eq!(circuit.external_inputs_len(), 6);
    let externals = vec![fe(1), fe(2), fe(3), fe(4), fe(5), fe(6)];
    let h = hash_of(&vec![fe(1), fe(2), fe(3)]);
    let h1 = hash_of(&vec![fe(4), fe(5), fe(6)]);
    let out = circuit.step_native(0, vec![h, h1], externals.clone()).unwrap();
    assert_eq!(out, vec![h, h1]);
    // a wrong first claim is rejected and reported
    match circuit.step_native(0, vec![h1, h1], externals) {
        Err(LedgerError::CommitmentInconsistency { expected, actual }) => {
            assert_eq!(expected, h1);
            assert_eq!(actual, h);
        }
        other => panic!("expected a mismatch report, got {:?}", other),
    }
}

#[test]
fn t_step_validates_the_claimed_hash() {
    let circuit = TCircuit::new();
    assert_eq!(circuit.state_len(), 1);
    let externals = vec![fe(7), fe(8), fe(9)];
    let h = hash_of(&externals);
    assert_eq!(circuit.step_native(0, vec![h], externals.clone()).unwrap(), vec![h]);
    assert!(circuit.step_native(0, vec![fe(0)], externals).is_err());
}
