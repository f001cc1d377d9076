//! Coin creation: approximates the note-commitment step. A coin is the
//! commitment root over the serial number (duplicated to make an even
//! leaf pair), the trapdoor value, and the address public key derived
//! from the address seed.

use vstd::prelude::*;

use crate::field::FieldElement;
use crate::merkle::{is_pow2, level_up, root_of, seq_values, MerkleTreeGadget};
use crate::oracle::{hash_one_value, hash_single, hash_two_values};

verus! {

/// Namespace of the coin-creation operation.
pub struct ZcashCoinGadget;

impl ZcashCoinGadget {
    /// Produces `[commitment, serial_number, r, address_pk]`: the
    /// commitment is the accumulator root over the pair
    /// `(serial_number, serial_number)`, and `address_pk` is the hash of
    /// the address seed. The caller is responsible for the seed's
    /// randomness.
    pub fn generate_coin_from_scalar_fields(
        serial_number: FieldElement,
        r: FieldElement,
        address_seed: FieldElement,
    ) -> (out: Vec<FieldElement>)
        requires
            serial_number.inv(),
            r.inv(),
            address_seed.inv(),
        ensures
            out@.len() == 4,
            out@[0].inv(),
            out@[0]@ == hash_two_values(serial_number@, serial_number@),
            out@[1] == serial_number,
            out@[2] == r,
            out@[3].inv(),
            out@[3]@ == hash_one_value(address_seed@),
    {
        let mut leaves: Vec<FieldElement> = Vec::new();
        leaves.push(serial_number);
        leaves.push(serial_number);
        proof {
            assert(is_pow2(leaves@.len())) by {
                reveal_with_fuel(is_pow2, 2);
            }
        }
        let cm_root_hash = match MerkleTreeGadget::build_root(&leaves) {
            Ok(root) => root,
            Err(_) => {
                // a two-leaf fold cannot be rejected
                return Vec::new();
            },
        };
        proof {
            let vals = seq_values(leaves@);
            assert(vals.len() == 2);
            assert(root_of(vals) == root_of(level_up(vals)));
            assert(level_up(vals).len() == 1);
            assert(level_up(vals)[0] == hash_two_values(vals[0], vals[1]));
            assert(vals[0] == serial_number@ && vals[1] == serial_number@);
        }
        let address_pk = hash_single(&address_seed);
        let mut out: Vec<FieldElement> = Vec::new();
        out.push(cm_root_hash);
        out.push(serial_number);
        out.push(r);
        out.push(address_pk);
        out
    }
}

} // verus!
