use shielded_ledger::errors::LedgerError;
use shielded_ledger::field::FieldElement;
use shielded_ledger::merkle::MerkleTreeGadget;

use ark_ff::{BigInteger, PrimeField};
use rs_merkle::Hasher;

fn leaves_of(values: &[u64]) -> Vec<FieldElement> {
    values.iter().map(|&v| FieldElement::from_u64(v)).collect()
}

fn to_fr(x: &FieldElement) -> ark_bn254::Fr {
    ark_bn254::Fr::from_bigint(ark_ff::BigInt::new([x.limb0, x.limb1, x.limb2, x.limb3])).unwrap()
}

/// The reference computation the hash oracle is trusted to perform: SHA-256
/// over the canonical little-endian encodings, reduced into the field.
fn reference_hash_pair(a: u64, b: u64) -> ark_bn254::Fr {
    let mut data = ark_bn254::Fr::from(a).into_bigint().to_bytes_le();
    data.extend_from_slice(&ark_bn254::Fr::from(b).into_bigint().to_bytes_le());
    let digest = rs_merkle::algorithms::Sha256::hash(&data);
    ark_bn254::Fr::from_le_bytes_mod_order(&digest)
}

#[test]
fn root_determinism() {
    let leaves = leaves_of(&[10, 20, 30, 40]);
    let r1 = MerkleTreeGadget::build_root(&leaves).unwrap();
    let r2 = MerkleTreeGadget::build_root(&leaves).unwrap();
    assert_eq!(r1, r2);
}

#[test]
fn order_sensitivity() {
    let leaves = leaves_of(&[10, 20, 30, 40]);
    let swapped = leaves_of(&[20, 10, 30, 40]);
    let r1 = MerkleTreeGadget::build_root(&leaves).unwrap();
    let r2 = MerkleTreeGadget::build_root(&swapped).unwrap();
    assert_ne!(r1, r2);
}

#[test]
fn proof_round_trip_all_indices() {
    for n in [1usize, 2, 4, 8] {
        let values: Vec<u64> = (0..n as u64).map(|i| 100 + i).collect();
        let leaves = leaves_of(&values);
        let root = MerkleTreeGadget::build_root(&leaves).unwrap();
        for index in 0..n {
            let path = MerkleTreeGadget::generate_proof(&leaves, index).unwrap();
            assert!(MerkleTreeGadget::verify_proof(&leaves[index], index, &path, &root));
        }
    }
}

#[test]
fn tamper_leaf_detected() {
    let leaves = leaves_of(&[10, 20, 30, 40]);
    let root = MerkleTreeGadget::build_root(&leaves).unwrap();
    for index in 0..4 {
        let path = MerkleTreeGadget::generate_proof(&leaves, index).unwrap();
        let wrong_leaf = FieldElement::from_u64(999);
        assert!(!MerkleTreeGadget::verify_proof(&wrong_leaf, index, &path, &root));
    }
}

#[test]
fn tamper_proof_element_detected() {
    let leaves = leaves_of(&[10, 20, 30, 40]);
    let root = MerkleTreeGadget::build_root(&leaves).unwrap();
    for index in 0..4 {
        for k in 0..2 {
            let mut path = MerkleTreeGadget::generate_proof(&leaves, index).unwrap();
            path[k] = FieldElement::from_u64(12345);
            assert!(!MerkleTreeGadget::verify_proof(&leaves[index], index, &path, &root));
        }
    }
}

#[test]
fn concrete_scenario_index_zero() {
    let leaves = leaves_of(&[10, 20, 30, 40]);
    let root = MerkleTreeGadget::build_root(&leaves).unwrap();
    let path = MerkleTreeGadget::generate_proof(&leaves, 0).unwrap();
    let leaf = FieldElement::from_u64(10);
    assert!(MerkleTreeGadget::verify_proof(&leaf, 0, &path, &root));
    for other in [0u64, 1, 7, 1000] {
        let mut tampered = path.clone();
        if tampered[1] == FieldElement::from_u64(other) {
            continue;
        }
        tampered[1] = FieldElement::from_u64(other);
        assert!(!MerkleTreeGadget::verify_proof(&leaf, 0, &tampered, &root));
    }
}

#[test]
fn odd_leaf_count_rejected() {
    let three = leaves_of(&[1, 2, 3]);
    assert_eq!(
        MerkleTreeGadget::build_root(&three),
        Err(LedgerError::InvalidLeafCount { leaf_count: 3 })
    );
    // even at the top, odd one level up
    let six = leaves_of(&[1, 2, 3, 4, 5, 6]);
    assert_eq!(
        MerkleTreeGadget::build_root(&six),
        Err(LedgerError::InvalidLeafCount { leaf_count: 6 })
    );
    assert_eq!(
        MerkleTreeGadget::generate_proof(&six, 0),
        Err(LedgerError::InvalidLeafCount { leaf_count: 6 })
    );
}

#[test]
fn empty_leaves_rejected() {
    let none: Vec<FieldElement> = Vec::new();
    assert_eq!(
        MerkleTreeGadget::build_root(&none),
        Err(LedgerError::InvalidLeafCount { leaf_count: 0 })
    );
}

#[test]
fn single_leaf_is_its_own_root() {
    let leaves = leaves_of(&[42]);
    let root = MerkleTreeGadget::build_root(&leaves).unwrap();
    assert_eq!(root, FieldElement::from_u64(42));
    let path = MerkleTreeGadget::generate_proof(&leaves, 0).unwrap();
    assert!(path.is_empty());
    assert!(MerkleTreeGadget::verify_proof(&leaves[0], 0, &path, &root));
}

#[test]
fn root_is_not_a_leaf_passthrough() {
    let leaves = leaves_of(&[7, 7]);
    let root = MerkleTreeGadget::build_root(&leaves).unwrap();
    assert_ne!(root, FieldElement::from_u64(7));
}

#[test]
fn pair_root_matches_reference_sha256() {
    let leaves = leaves_of(&[10, 20]);
    let root = MerkleTreeGadget::build_root(&leaves).unwrap();
    assert_eq!(to_fr(&root), reference_hash_pair(10, 20));
}

#[test]
fn four_leaf_root_matches_reference_sha256() {
    let leaves = leaves_of(&[10, 20, 30, 40]);
    let root = MerkleTreeGadget::build_root(&leaves).unwrap();
    let left = reference_hash_pair(10, 20);
    let right = reference_hash_pair(30, 40);
    let mut data = left.into_bigint().to_bytes_le();
    data.extend_from_slice(&right.into_bigint().to_bytes_le());
    let digest = rs_merkle::algorithms::Sha256::hash(&data);
    let expected = ark_bn254::Fr::from_le_bytes_mod_order(&digest);
    assert_eq!(to_fr(&root), expected);
}

#[test]
fn generate_proof_and_validate_succeeds() {
    let leaves = leaves_of(&[10, 20, 30, 40]);
    for index in 0..4 {
        assert_eq!(MerkleTreeGadget::generate_proof_and_validate(&leaves, index), Ok(true));
    }
}

#[test]
fn create_root_hash_from_scalar_fields_matches_build_root() {
    let leaves = leaves_of(&[10, 20, 30, 40]);
    let by_ref = MerkleTreeGadget::build_root(&leaves).unwrap();
    let by_value = MerkleTreeGadget::create_root_hash_from_scalar_fields(leaves).unwrap();
    assert_eq!(by_ref, by_value);
}
