use shielded_ledger::errors::LedgerError;
use shielded_ledger::field::FieldElement;
use shielded_ledger::keys::{Address, TransactionSerialNumber};
use shielded_ledger::merkle::MerkleTreeGadget;
use shielded_ledger::transaction::Transaction;

use ark_ff::{BigInteger, PrimeField};
use rs_merkle::Hasher;

fn fe(v: u64) -> FieldElement {
    FieldElement::from_u64(v)
}

fn to_fr(x: &FieldElement) -> ark_bn254::Fr {
    ark_bn254::Fr::from_bigint(ark_ff::BigInt::new([x.limb0, x.limb1, x.limb2, x.limb3])).unwrap()
}

/// The reference derivation the hash oracle is trusted to perform on one
/// element: SHA-256 of its canonical encoding, reduced into the field.
fn reference_hash_single(v: u64) -> ark_bn254::Fr {
    let data = ark_bn254::Fr::from(v).into_bigint().to_bytes_le();
    let digest = rs_merkle::algorithms::Sha256::hash(&data);
    ark_bn254::Fr::from_le_bytes_mod_order(&digest)
}

fn sample_transaction() -> Transaction {
    Transaction::new(fe(1), fe(30), fe(11), fe(22), fe(33))
}

#[test]
fn address_matches_reference_derivation() {
    let address = Address::new(fe(11));
    assert_eq!(to_fr(&address.public_key()), reference_hash_single(11));
    assert_eq!(address.secret_key(), fe(11));
    assert_ne!(address.public_key(), fe(11));
}

#[test]
fn serial_number_matches_reference_derivation() {
    let sn = TransactionSerialNumber::new(fe(33));
    assert_eq!(to_fr(&sn.sn()), reference_hash_single(33));
    // address derivation and nullifier derivation share the construction
    assert_eq!(sn.sn(), Address::new(fe(33)).public_key());
}

#[test]
fn leaf_vector_layout() {
    let t = sample_transaction();
    let v = t.to_vec();
    assert_eq!(v.len(), 7);
    assert_eq!(v[0], t.transaction_id());
    assert_eq!(v[1], t.value());
    assert_eq!(v[2], t.sender_address().public_key());
    assert_eq!(v[3], t.sender_address().secret_key());
    assert_eq!(v[4], t.receiver_address().public_key());
    assert_eq!(v[5], t.receiver_address().secret_key());
    assert_eq!(v[6], t.serial_number());
}

#[test]
fn root_self_check_passes() {
    let t = sample_transaction();
    let root = t.root().unwrap();
    // the root is the fold over the leaf vector padded with one zero
    let mut leaves = t.to_vec();
    leaves.push(FieldElement::from_u64(0));
    assert_eq!(root, MerkleTreeGadget::build_root(&leaves).unwrap());
}

#[test]
fn root_determined_by_content() {
    let t1 = sample_transaction();
    let t2 = sample_transaction();
    assert_eq!(t1.root().unwrap(), t2.root().unwrap());
    let other = Transaction::new(fe(2), fe(30), fe(11), fe(22), fe(33));
    assert_ne!(t1.root().unwrap(), other.root().unwrap());
}

#[test]
fn split_conserving_values_succeeds() {
    let t = sample_transaction();
    let split_values = vec![fe(15), fe(15)];
    let receivers = vec![Address::new(fe(71)), Address::new(fe(72))];
    let sn_secrets = vec![fe(81), fe(82)];
    let children = t.split_transaction(&split_values, &receivers, &fe(11), &sn_secrets).unwrap();
    assert_eq!(children.len(), 2);
    for (i, child) in children.iter().enumerate() {
        assert_eq!(child.transaction_id(), fe(i as u64));
        assert_eq!(child.value(), split_values[i]);
        assert_eq!(child.sender_address().secret_key(), fe(11));
        assert_eq!(child.receiver_address(), receivers[i]);
        assert_eq!(
            child.serial_number(),
            TransactionSerialNumber::new(sn_secrets[i]).sn()
        );
    }
}

#[test]
fn split_children_can_split_again() {
    let t = sample_transaction();
    let children = t
        .split_transaction(
            &vec![fe(20), fe(10)],
            &vec![Address::new(fe(71)), Address::new(fe(72))],
            &fe(11),
            &vec![fe(81), fe(82)],
        )
        .unwrap();
    let grandchildren = children[0]
        .split_transaction(
            &vec![fe(5), fe(15)],
            &vec![Address::new(fe(73)), Address::new(fe(74))],
            &fe(11),
            &vec![fe(83), fe(84)],
        )
        .unwrap();
    assert_eq!(grandchildren.len(), 2);
    assert_eq!(grandchildren[0].value(), fe(5));
    assert_eq!(grandchildren[1].value(), fe(15));
}

#[test]
fn split_off_by_one_is_rejected() {
    let t = sample_transaction();
    let split_values = vec![fe(15), fe(14)];
    let receivers = vec![Address::new(fe(71)), Address::new(fe(72))];
    let sn_secrets = vec![fe(81), fe(82)];
    let result = t.split_transaction(&split_values, &receivers, &fe(11), &sn_secrets);
    match result {
        Err(LedgerError::ValueConservationViolation { expected, actual }) => {
            assert_eq!(expected, fe(30));
            assert_eq!(actual, fe(29));
        }
        other => panic!("expected a conservation violation, got {:?}", other),
    }
}
