//! Per-step state-transition functions consumed by a folding/IVC engine:
//! each circuit is a plain function from the state vector (and external
//! inputs) to the next state vector. Only these native steps live here;
//! their constraint-generating counterparts run inside the proving
//! backend's constraint system, which is outside the verified core.

use vstd::prelude::*;

use crate::coin::ZcashCoinGadget;
use crate::errors::LedgerError;
use crate::field::FieldElement;
use crate::merkle::{all_valid, is_pow2, root_of, seq_values, MerkleTreeGadget};
use crate::oracle::{
    hash_many_values, hash_one_value, hash_pair, hash_single, hash_two_values,
};
use crate::validate::ZcashHashGadget;

verus! {

/// The elements of `v` from `start` (inclusive) to `end` (exclusive).
fn take_range(v: &Vec<FieldElement>, start: usize, end: usize) -> (r: Vec<FieldElement>)
    requires
        start <= end <= v@.len(),
    ensures
        r@ == v@.subrange(start as int, end as int),
{
    let mut r: Vec<FieldElement> = Vec::new();
    let mut i: usize = start;
    while i < end
        invariant
            start <= i <= end <= v@.len(),
            r@ == v@.subrange(start as int, i as int),
        decreases end - i,
    {
        r.push(v[i]);
        i = i + 1;
        proof {
            assert(v@.subrange(start as int, i as int) =~= v@.subrange(
                start as int,
                i - 1,
            ).push(v@[i - 1]));
        }
    }
    r
}

/// Step: hash the two state elements as a pair; the digest is duplicated
/// to keep the state length at two.
pub struct HashTwoFqCircuit;

impl HashTwoFqCircuit {
    pub fn new() -> (r: HashTwoFqCircuit) {
        HashTwoFqCircuit
    }

    pub fn state_len(&self) -> (r: usize)
        ensures
            r == 2,
    {
        2
    }

    pub fn external_inputs_len(&self) -> (r: usize)
        ensures
            r == 0,
    {
        0
    }

    pub fn step_native(&self, _i: usize, z_i: Vec<FieldElement>, _external_inputs: Vec<
        FieldElement,
    >) -> (r: Result<Vec<FieldElement>, LedgerError>)
        requires
            z_i@.len() == 2,
            all_valid(z_i@),
        ensures
            r is Ok,
            r matches Ok(out) ==> {
                &&& out@.len() == 2
                &&& out@[0].inv()
                &&& out@[0]@ == hash_two_values(z_i@[0]@, z_i@[1]@)
                &&& out@[1] == out@[0]
            },
    {
        let out = hash_pair(&z_i[0], &z_i[1]);
        let mut next: Vec<FieldElement> = Vec::new();
        next.push(out);
        next.push(out);
        Ok(next)
    }
}

/// Step: fold the state vector into its commitment root; the root is
/// replicated to keep the state length.
pub struct MerkleTreeCircuit;

impl MerkleTreeCircuit {
    pub fn new() -> (r: MerkleTreeCircuit) {
        MerkleTreeCircuit
    }

    pub fn state_len(&self) -> (r: usize)
        ensures
            r == 4,
    {
        4
    }

    pub fn external_inputs_len(&self) -> (r: usize)
        ensures
            r == 0,
    {
        0
    }

    pub fn step_native(&self, _i: usize, z_i: Vec<FieldElement>, _external_inputs: Vec<
        FieldElement,
    >) -> (r: Result<Vec<FieldElement>, LedgerError>)
        requires
            all_valid(z_i@),
        ensures
            match r {
                Ok(out) => {
                    &&& is_pow2(z_i@.len())
                    &&& out@.len() == 4
                    &&& forall|j: int|
                        0 <= j < 4 ==> (#[trigger] out@[j])@ == root_of(seq_values(z_i@))
                            && out@[j].inv()
                },
                Err(e) => !is_pow2(z_i@.len()) && e == (LedgerError::InvalidLeafCount {
                    leaf_count: z_i@.len() as usize,
                }),
            },
    {
        let root = match MerkleTreeGadget::build_root(&z_i) {
            Ok(root) => root,
            Err(e) => {
                return Err(e);
            },
        };
        let mut next: Vec<FieldElement> = Vec::new();
        next.push(root);
        next.push(root);
        next.push(root);
        next.push(root);
        Ok(next)
    }
}

/// Step: create a coin from the state `(sn, r, address_seed)`; the next
/// state is `[commitment, sn, r, address_pk]`.
pub struct CoinCircuit;

impl CoinCircuit {
    pub fn new() -> (r: CoinCircuit) {
        CoinCircuit
    }

    pub fn state_len(&self) -> (r: usize)
        ensures
            r == 4,
    {
        4
    }

    pub fn external_inputs_len(&self) -> (r: usize)
        ensures
            r == 0,
    {
        0
    }

    pub fn step_native(&self, _i: usize, z_i: Vec<FieldElement>, _external_inputs: Vec<
        FieldElement,
    >) -> (r: Result<Vec<FieldElement>, LedgerError>)
        requires
            z_i@.len() >= 3,
            all_valid(z_i@),
        ensures
            r is Ok,
            r matches Ok(out) ==> {
                &&& out@.len() == 4
                &&& out@[0].inv()
                &&& out@[0]@ == hash_two_values(z_i@[0]@, z_i@[0]@)
                &&& out@[1] == z_i@[0]
                &&& out@[2] == z_i@[1]
                &&& out@[3].inv()
                &&& out@[3]@ == hash_one_value(z_i@[2]@)
            },
    {
        let sn = z_i[0];
        let trapdoor = z_i[1];
        let address_sk = z_i[2];
        let data = ZcashCoinGadget::generate_coin_from_scalar_fields(sn, trapdoor, address_sk);
        let mut next: Vec<FieldElement> = Vec::new();
        next.push(data[0]);
        next.push(sn);
        next.push(trapdoor);
        next.push(data[3]);
        Ok(next)
    }
}

/// Step: hash the two state elements separately; the next state carries
/// both digests.
pub struct SpendCircuit;

impl SpendCircuit {
    pub fn new() -> (r: SpendCircuit) {
        SpendCircuit
    }

    pub fn state_len(&self) -> (r: usize)
        ensures
            r == 3,
    {
        3
    }

    pub fn external_inputs_len(&self) -> (r: usize)
        ensures
            r == 0,
    {
        0
    }

    pub fn step_native(&self, _i: usize, z_i: Vec<FieldElement>, _external_inputs: Vec<
        FieldElement,
    >) -> (r: Result<Vec<FieldElement>, LedgerError>)
        requires
            z_i@.len() >= 2,
            all_valid(z_i@),
        ensures
            r is Ok,
            r matches Ok(out) ==> {
                &&& out@.len() == 2
                &&& out@[0].inv()
                &&& out@[0]@ == hash_one_value(z_i@[0]@)
                &&& out@[1].inv()
                &&& out@[1]@ == hash_one_value(z_i@[1]@)
            },
    {
        let out1 = hash_single(&z_i[0]);
        let out2 = hash_single(&z_i[1]);
        let mut next: Vec<FieldElement> = Vec::new();
        next.push(out1);
        next.push(out2);
        Ok(next)
    }
}

/// Step: the external inputs are split in half; each half is hashed and
/// validated against the corresponding public state element.
pub struct PublicLedgerCircuit;

impl PublicLedgerCircuit {
    pub fn new() -> (r: PublicLedgerCircuit) {
        PublicLedgerCircuit
    }

    pub fn state_len(&self) -> (r: usize)
        ensures
            r == 2,
    {
        2
    }

    pub fn external_inputs_len(&self) -> (r: usize)
        ensures
            r == 6,
    {
        6
    }

    pub fn step_native(&self, _i: usize, z_i: Vec<FieldElement>, external_inputs: Vec<
        FieldElement,
    >) -> (r: Result<Vec<FieldElement>, LedgerError>)
        requires
            z_i@.len() == 2,
            all_valid(z_i@),
            all_valid(external_inputs@),
        ensures
            ({
                let mid = external_inputs@.len() as int / 2;
                let h = hash_many_values(seq_values(external_inputs@.take(mid)));
                let h1 = hash_many_values(seq_values(external_inputs@.skip(mid)));
                match r {
                    Ok(out) => {
                        &&& z_i@[0]@ == h
                        &&& z_i@[1]@ == h1
                        &&& out@.len() == 2
                        &&& out@[0]@ == h
                        &&& out@[1]@ == h1
                    },
                    Err(e) => {
                        &&& (z_i@[0]@ != h || z_i@[1]@ != h1)
                        &&& e matches LedgerError::CommitmentInconsistency { expected, actual }
                        &&& e matches LedgerError::CommitmentInconsistency { expected, actual }
                            ==> (if z_i@[0]@ != h {
                            expected == z_i@[0] && actual@ == h
                        } else {
                            expected == z_i@[1] && actual@ == h1
                        })
                    },
                }
            }),
    {
        let mid = external_inputs.len() / 2;
        let first_half = take_range(&external_inputs, 0, mid);
        let second_half = take_range(&external_inputs, mid, external_inputs.len());
        proof {
            assert(first_half@ =~= external_inputs@.take(external_inputs@.len() as int / 2));
            assert(second_half@ =~= external_inputs@.skip(external_inputs@.len() as int / 2));
        }
        let h = match ZcashHashGadget::hash_scalar_fields(&first_half, &z_i[0]) {
            Ok(h) => h,
            Err(e) => {
                return Err(e);
            },
        };
        let h1 = match ZcashHashGadget::hash_scalar_fields(&second_half, &z_i[1]) {
            Ok(h1) => h1,
            Err(e) => {
                return Err(e);
            },
        };
        let mut next: Vec<FieldElement> = Vec::new();
        next.push(h);
        next.push(h1);
        Ok(next)
    }
}

/// Step: the external inputs (the secret `T` vector) are hashed and
/// validated against the single public state element.
pub struct TCircuit;

impl TCircuit {
    pub fn new() -> (r: TCircuit) {
        TCircuit
    }

    pub fn state_len(&self) -> (r: usize)
        ensures
            r == 1,
    {
        1
    }

    pub fn external_inputs_len(&self) -> (r: usize)
        ensures
            r == 3,
    {
        3
    }

    pub fn step_native(&self, _i: usize, z_i: Vec<FieldElement>, external_inputs: Vec<
        FieldElement,
    >) -> (r: Result<Vec<FieldElement>, LedgerError>)
        requires
            z_i@.len() >= 1,
            all_valid(z_i@),
            all_valid(external_inputs@),
        ensures
            ({
                let h = hash_many_values(seq_values(external_inputs@));
                match r {
                    Ok(out) => z_i@[0]@ == h && out@.len() == 1 && out@[0]@ == h,
                    Err(e) => {
                        &&& z_i@[0]@ != h
                        &&& e matches LedgerError::CommitmentInconsistency { expected, actual }
                        &&& e matches LedgerError::CommitmentInconsistency { expected, actual }
                            ==> expected == z_i@[0] && actual@ == h
                    },
                }
            }),
    {
        let h = match ZcashHashGadget::hash_scalar_fields(&external_inputs, &z_i[0]) {
            Ok(h) => h,
            Err(e) => {
                return Err(e);
            },
        };
        let mut next: Vec<FieldElement> = Vec::new();
        next.push(h);
        Ok(next)
    }
}

} // verus!
