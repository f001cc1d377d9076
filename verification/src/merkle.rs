//! The Merkle commitment accumulator: a binary, bottom-up, pairwise-hash
//! fold over an ordered sequence of field-element leaves. The leaf count
//! must be even at every folding level, i.e. a power of two; an odd level
//! is rejected with `InvalidLeafCount`. Pair order matters, so leaf order
//! is part of the commitment.

use vstd::prelude::*;

use crate::errors::LedgerError;
use crate::field::FieldElement;
use crate::oracle::{hash_pair, hash_two_values};

verus! {

/// The mathematical values of a sequence of field elements.
pub open spec fn seq_values(s: Seq<FieldElement>) -> Seq<nat> {
    s.map(|i: int, x: FieldElement| x@)
}

/// Every element is in canonical form.
pub open spec fn all_valid(s: Seq<FieldElement>) -> bool {
    forall|i: int| 0 <= i < s.len() ==> s[i].inv()
}

/// One folding step: adjacent pairs are hashed left-to-right.
pub open spec fn level_up(s: Seq<nat>) -> Seq<nat> {
    Seq::new((s.len() / 2) as nat, |i: int| hash_two_values(s[2 * i], s[2 * i + 1]))
}

/// The root of the pairwise fold. Meaningful for power-of-two lengths;
/// total so that contracts can mention it unconditionally.
pub open spec fn root_of(s: Seq<nat>) -> nat
    decreases s.len(),
{
    if s.len() == 0 {
        0
    } else if s.len() == 1 {
        s[0]
    } else {
        root_of(level_up(s))
    }
}

pub open spec fn is_pow2(n: nat) -> bool
    decreases n,
{
    if n == 0 {
        false
    } else if n == 1 {
        true
    } else {
        n % 2 == 0 && is_pow2(n / 2)
    }
}

/// The index of the sibling of node `i` within its level.
pub open spec fn sibling_index(i: int) -> int {
    if i % 2 == 0 {
        i + 1
    } else {
        i - 1
    }
}

/// The inclusion proof for position `i`: at each level the sibling of the
/// node on the path from `i` to the root, bottom level first.
pub open spec fn proof_of(s: Seq<nat>, i: int) -> Seq<nat>
    decreases s.len(),
{
    if s.len() <= 1 {
        Seq::empty()
    } else {
        seq![s[sibling_index(i)]] + proof_of(level_up(s), i / 2)
    }
}

/// Replays an inclusion proof: folds the leaf with each sibling in order,
/// on the side that the position within the level dictates.
pub open spec fn replay_proof(leaf: nat, pos: int, path: Seq<nat>) -> nat
    decreases path.len(),
{
    if path.len() == 0 {
        leaf
    } else {
        let step = if pos % 2 == 0 {
            hash_two_values(leaf, path[0])
        } else {
            hash_two_values(path[0], leaf)
        };
        replay_proof(step, pos / 2, path.drop_first())
    }
}

/// Whether replaying `path` from `leaf` at position `pos` reaches `root`.
pub open spec fn proof_checks(leaf: nat, pos: int, path: Seq<nat>, root: nat) -> bool {
    replay_proof(leaf, pos, path) == root
}

fn clone_leaves(v: &Vec<FieldElement>) -> (r: Vec<FieldElement>)
    ensures
        r@ == v@,
{
    let mut r: Vec<FieldElement> = Vec::new();
    let mut i: usize = 0;
    while i < v.len()
        invariant
            i <= v@.len(),
            r@ == v@.subrange(0, i as int),
        decreases v@.len() - i,
    {
        r.push(v[i]);
        i = i + 1;
    }
    proof {
        assert(r@ =~= v@);
    }
    r
}

/// Folds one level: `level` must be even and fully valid; returns the
/// hashes of adjacent pairs.
fn fold_level(level: &Vec<FieldElement>) -> (next: Vec<FieldElement>)
    requires
        all_valid(level@),
        level@.len() % 2 == 0,
    ensures
        all_valid(next@),
        seq_values(next@) == level_up(seq_values(level@)),
        next@.len() == level@.len() / 2,
{
    let mut next: Vec<FieldElement> = Vec::new();
    let mut i: usize = 0;
    while i < level.len() / 2
        invariant
            all_valid(level@),
            i <= level@.len() / 2,
            next@.len() == i,
            all_valid(next@),
            forall|j: int|
                0 <= j < i ==> next@[j]@ == hash_two_values(level@[2 * j]@, level@[2 * j + 1]@),
        decreases level@.len() / 2 - i,
    {
        let h = hash_pair(&level[2 * i], &level[2 * i + 1]);
        next.push(h);
        i = i + 1;
    }
    proof {
        assert forall|j: int| 0 <= j < next@.len() implies seq_values(next@)[j] == level_up(
            seq_values(level@),
        )[j] by {
            assert(seq_values(next@)[j] == next@[j]@);
            assert(seq_values(level@)[2 * j] == level@[2 * j]@);
            assert(seq_values(level@)[2 * j + 1] == level@[2 * j + 1]@);
        }
        assert(seq_values(next@) =~= level_up(seq_values(level@)));
    }
    next
}

/// Namespace of the accumulator operations.
pub struct MerkleTreeGadget;

impl MerkleTreeGadget {
    /// Builds the commitment root of `leaves` by the pairwise fold.
    /// Succeeds exactly on power-of-two leaf counts; the result is the
    /// fold's value, so two calls on equal leaf sequences return equal
    /// roots (root determinism).
    pub fn build_root(leaves: &Vec<FieldElement>) -> (r: Result<FieldElement, LedgerError>)
        requires
            all_valid(leaves@),
        ensures
            match r {
                Ok(root) => is_pow2(leaves@.len()) && root.inv() && root@ == root_of(
                    seq_values(leaves@),
                ),
                Err(e) => !is_pow2(leaves@.len()) && e == (LedgerError::InvalidLeafCount {
                    leaf_count: leaves.len(),
                }),
            },
    {
        if leaves.len() == 0 {
            return Err(LedgerError::InvalidLeafCount { leaf_count: leaves.len() });
        }
        let mut level = clone_leaves(leaves);
        while level.len() > 1
            invariant
                all_valid(level@),
                level@.len() >= 1,
                root_of(seq_values(level@)) == root_of(seq_values(leaves@)),
                is_pow2(level@.len()) <==> is_pow2(leaves@.len()),
            decreases level@.len(),
        {
            if level.len() % 2 != 0 {
                return Err(LedgerError::InvalidLeafCount { leaf_count: leaves.len() });
            }
            let next = fold_level(&level);
            proof {
                assert(seq_values(level@).len() == level@.len());
                assert(root_of(seq_values(level@)) == root_of(level_up(seq_values(level@))));
            }
            level = next;
        }
        proof {
            assert(seq_values(level@).len() == 1);
            assert(root_of(seq_values(level@)) == seq_values(level@)[0]);
        }
        Ok(level[0])
    }

    /// The original plain-value entry point: `build_root` under the name
    /// callers of the by-value form use.
    pub fn create_root_hash_from_scalar_fields(leaves: Vec<FieldElement>) -> (r: Result<
        FieldElement,
        LedgerError,
    >)
        requires
            all_valid(leaves@),
        ensures
            match r {
                Ok(root) => is_pow2(leaves@.len()) && root.inv() && root@ == root_of(
                    seq_values(leaves@),
                ),
                Err(e) => !is_pow2(leaves@.len()) && e == (LedgerError::InvalidLeafCount {
                    leaf_count: leaves@.len() as usize,
                }),
            },
    {
        Self::build_root(&leaves)
    }

    /// Walks the fold from `index` to the root, recording the sibling of
    /// the node on the path at each level, bottom level first.
    pub fn generate_proof(leaves: &Vec<FieldElement>, index: usize) -> (r: Result<
        Vec<FieldElement>,
        LedgerError,
    >)
        requires
            all_valid(leaves@),
            (index as int) < leaves@.len(),
        ensures
            match r {
                Ok(path) => is_pow2(leaves@.len()) && all_valid(path@) && seq_values(path@)
                    == proof_of(seq_values(leaves@), index as int),
                Err(e) => !is_pow2(leaves@.len()) && e == (LedgerError::InvalidLeafCount {
                    leaf_count: leaves.len(),
                }),
            },
    {
        let mut level = clone_leaves(leaves);
        let mut pos: usize = index;
        let mut path: Vec<FieldElement> = Vec::new();
        proof {
            assert(seq_values(path@) + proof_of(seq_values(level@), pos as int) =~= proof_of(
                seq_values(leaves@),
                index as int,
            ));
        }
        while level.len() > 1
            invariant
                all_valid(level@),
                all_valid(path@),
                (pos as int) < level@.len(),
                is_pow2(level@.len()) <==> is_pow2(leaves@.len()),
                proof_of(seq_values(leaves@), index as int) == seq_values(path@) + proof_of(
                    seq_values(level@),
                    pos as int,
                ),
            decreases level@.len(),
        {
            if level.len() % 2 != 0 {
                return Err(LedgerError::InvalidLeafCount { leaf_count: leaves.len() });
            }
            let sibling = if pos % 2 == 0 {
                level[pos + 1]
            } else {
                level[pos - 1]
            };
            let ghost prev_path = path@;
            let ghost prev_vals = seq_values(level@);
            let ghost old_pos = pos as int;
            proof {
                assert(sibling@ == prev_vals[sibling_index(old_pos)]);
            }
            path.push(sibling);
            let next = fold_level(&level);
            level = next;
            pos = pos / 2;
            proof {
                assert(pos as int == old_pos / 2);
                assert(proof_of(prev_vals, old_pos) == seq![prev_vals[sibling_index(old_pos)]]
                    + proof_of(level_up(prev_vals), old_pos / 2));
                assert(seq_values(path@) =~= seq_values(prev_path).push(sibling@));
                assert(seq_values(path@) + proof_of(seq_values(level@), pos as int) =~= seq_values(
                    prev_path,
                ) + proof_of(prev_vals, old_pos));
            }
        }
        proof {
            assert(proof_of(seq_values(level@), pos as int) == Seq::<nat>::empty());
            assert(seq_values(path@) + Seq::<nat>::empty() =~= seq_values(path@));
        }
        Ok(path)
    }

    /// Replays `path` from `leaf` at position `index` and compares the
    /// result with `root`.
    pub fn verify_proof(
        leaf: &FieldElement,
        index: usize,
        path: &Vec<FieldElement>,
        root: &FieldElement,
    ) -> (r: bool)
        requires
            leaf.inv(),
            all_valid(path@),
            root.inv(),
        ensures
            r == proof_checks(leaf@, index as int, seq_values(path@), root@),
    {
        let mut current: FieldElement = *leaf;
        let mut pos: usize = index;
        let mut k: usize = 0;
        proof {
            assert(seq_values(path@).skip(0) =~= seq_values(path@));
        }
        while k < path.len()
            invariant
                all_valid(path@),
                k <= path@.len(),
                current.inv(),
                replay_proof(leaf@, index as int, seq_values(path@)) == replay_proof(
                    current@,
                    pos as int,
                    seq_values(path@).skip(k as int),
                ),
            decreases path@.len() - k,
        {
            let ghost old_vals = seq_values(path@).skip(k as int);
            let ghost old_pos = pos as int;
            let ghost old_current = current@;
            let step = if pos % 2 == 0 {
                hash_pair(&current, &path[k])
            } else {
                hash_pair(&path[k], &current)
            };
            current = step;
            pos = pos / 2;
            k = k + 1;
            proof {
                assert(old_vals[0] == seq_values(path@)[k - 1]);
                assert(seq_values(path@)[k - 1] == path@[k - 1]@);
                assert(old_vals.drop_first() =~= seq_values(path@).skip(k as int));
                assert(replay_proof(old_current, old_pos, old_vals) == replay_proof(
                    current@,
                    pos as int,
                    seq_values(path@).skip(k as int),
                ));
            }
        }
        proof {
            assert(seq_values(path@).skip(k as int) =~= Seq::<nat>::empty());
            assert(replay_proof(current@, pos as int, Seq::<nat>::empty()) == current@);
        }
        let same = current == *root;
        proof {
            if current@ == root@ {
                crate::field::lemma_eq_by_value(current, *root);
            }
        }
        same
    }

    /// Generates the inclusion proof for `index` and immediately replays
    /// it against the freshly built root. On power-of-two leaf counts this
    /// is the proof round-trip law in executable form: the check cannot
    /// fail.
    pub fn generate_proof_and_validate(leaves: &Vec<FieldElement>, index: usize) -> (r: Result<
        bool,
        LedgerError,
    >)
        requires
            all_valid(leaves@),
            (index as int) < leaves@.len(),
        ensures
            match r {
                Ok(valid) => is_pow2(leaves@.len()) && valid,
                Err(e) => !is_pow2(leaves@.len()) && e == (LedgerError::InvalidLeafCount {
                    leaf_count: leaves.len(),
                }),
            },
    {
        let root = match Self::build_root(leaves) {
            Ok(root) => root,
            Err(e) => {
                return Err(e);
            },
        };
        let path = match Self::generate_proof(leaves, index) {
            Ok(path) => path,
            Err(e) => {
                return Err(e);
            },
        };
        let valid = Self::verify_proof(&leaves[index], index, &path, &root);
        proof {
            lemma_proof_round_trip(seq_values(leaves@), index as int);
            assert(seq_values(leaves@)[index as int] == leaves@[index as int]@);
        }
        Ok(valid)
    }
}

/// The inclusion-proof round trip: for every leaf sequence of power-of-two
/// length and every valid index, replaying the generated proof from that
/// leaf reaches the root built over the sequence.
pub proof fn lemma_proof_round_trip(s: Seq<nat>, i: int)
    requires
        is_pow2(s.len()),
        0 <= i < s.len(),
    ensures
        proof_checks(s[i], i, proof_of(s, i), root_of(s)),
    decreases s.len(),
{
    if s.len() == 1 {
        assert(proof_of(s, i) == Seq::<nat>::empty());
        assert(replay_proof(s[i], i, proof_of(s, i)) == s[i]);
    } else {
        let up = level_up(s);
        let j = i / 2;
        assert(s.len() % 2 == 0);
        assert(up.len() == s.len() / 2);
        assert(is_pow2(up.len()));
        assert(0 <= j < up.len());
        let full = proof_of(s, i);
        let rest = proof_of(up, j);
        assert(full == seq![s[sibling_index(i)]] + rest);
        assert(full[0] == s[sibling_index(i)]);
        assert(full.drop_first() =~= rest);
        let step = if i % 2 == 0 {
            hash_two_values(s[i], full[0])
        } else {
            hash_two_values(full[0], s[i])
        };
        assert(replay_proof(s[i], i, full) == replay_proof(step, j, rest));
        if i % 2 == 0 {
            assert(2 * j == i);
            assert(step == hash_two_values(s[2 * j], s[2 * j + 1]));
        } else {
            assert(2 * j + 1 == i);
            assert(step == hash_two_values(s[2 * j], s[2 * j + 1]));
        }
        assert(step == up[j]);
        lemma_proof_round_trip(up, j);
        assert(root_of(s) == root_of(up));
    }
}

} // verus!
