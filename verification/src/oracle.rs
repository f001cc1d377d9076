//! The hash oracle and the entropy source: the two capabilities the core
//! consumes from outside crates. Hashing is SHA-256 over bytes, reduced
//! into the scalar field; the digest is named by an uninterpreted spec
//! function, since no short formula states it. Everything around that one
//! step is verified: the canonical byte encoding of the elements fed to
//! the oracle, and the reduction of the digest into the field. Randomness
//! is sampled behind a wrapper and nothing is assumed of the value beyond
//! canonical form.

use vstd::prelude::*;

use ark_ff::{BigInteger, PrimeField};
use ark_std::UniformRand;
use ark_std::rand::Rng;
use rs_merkle::Hasher;

use crate::field::{bytes_value, from_le_bytes_reduced, le_bytes_value, mod_value, FieldElement};

verus! {

/// The 32-byte SHA-256 digest of an input byte sequence.
pub uninterp spec fn sha256_of(data: Seq<u8>) -> Seq<u8>;

/// The field element that the oracle returns for an input byte sequence:
/// the digest read as a little-endian integer and reduced.
pub open spec fn digest_value(data: Seq<u8>) -> nat {
    mod_value(bytes_value(sha256_of(data)) as int)
}

/// The oracle's value on a single element: the digest of its canonical
/// byte encoding.
pub open spec fn hash_one_value(x: nat) -> nat {
    digest_value(le_bytes_value(x))
}

/// The oracle's value on an ordered pair: the digest of the two canonical
/// encodings in order.
pub open spec fn hash_two_values(a: nat, b: nat) -> nat {
    digest_value(le_bytes_value(a) + le_bytes_value(b))
}

/// The concatenated canonical encodings of a sequence of values.
pub open spec fn le_bytes_of_values(xs: Seq<nat>) -> Seq<u8>
    decreases xs.len(),
{
    if xs.len() == 0 {
        Seq::empty()
    } else {
        le_bytes_value(xs.first()) + le_bytes_of_values(xs.drop_first())
    }
}

/// The oracle's value on an ordered sequence: the digest of the
/// concatenated canonical encodings.
pub open spec fn hash_many_values(xs: Seq<nat>) -> nat {
    digest_value(le_bytes_of_values(xs))
}

/// Relies on `rs_merkle::algorithms::Sha256`: SHA-256, a deterministic
/// function of its input bytes alone, returning a 32-byte digest.
#[verifier::external_body]
fn sha256_bytes(data: &Vec<u8>) -> (r: Vec<u8>)
    ensures
        r@ == sha256_of(data@),
        r@.len() == 32,
{
    rs_merkle::algorithms::Sha256::hash(data).to_vec()
}

/// SHA-256 reduced into the field.
fn sha256_field(data: &Vec<u8>) -> (r: FieldElement)
    ensures
        r.inv(),
        r@ == digest_value(data@),
{
    let digest = sha256_bytes(data);
    from_le_bytes_reduced(&digest)
}

/// The oracle on a single element.
pub(crate) fn hash_single(x: &FieldElement) -> (r: FieldElement)
    ensures
        r.inv(),
        r@ == hash_one_value(x@),
{
    let data = x.to_le_bytes();
    sha256_field(&data)
}

/// The oracle on an ordered pair.
pub(crate) fn hash_pair(a: &FieldElement, b: &FieldElement) -> (r: FieldElement)
    ensures
        r.inv(),
        r@ == hash_two_values(a@, b@),
{
    let mut data = a.to_le_bytes();
    let mut tail = b.to_le_bytes();
    data.append(&mut tail);
    sha256_field(&data)
}

/// Appending a value appends its encoding.
proof fn lemma_le_bytes_of_values_push(xs: Seq<nat>, v: nat)
    ensures
        le_bytes_of_values(xs.push(v)) == le_bytes_of_values(xs) + le_bytes_value(v),
    decreases xs.len(),
{
    if xs.len() == 0 {
        assert(xs.push(v).drop_first() =~= Seq::<nat>::empty());
        assert(xs.push(v).first() == v);
        assert(le_bytes_of_values(xs.push(v)) == le_bytes_value(v) + le_bytes_of_values(
            Seq::<nat>::empty(),
        ));
        assert(le_bytes_of_values(xs.push(v)) =~= le_bytes_of_values(xs) + le_bytes_value(v));
    } else {
        assert(xs.push(v).drop_first() =~= xs.drop_first().push(v));
        lemma_le_bytes_of_values_push(xs.drop_first(), v);
        assert(le_bytes_of_values(xs.push(v)) =~= le_bytes_of_values(xs) + le_bytes_value(v));
    }
}

/// The oracle on an ordered sequence of elements.
pub(crate) fn hash_fields(xs: &Vec<FieldElement>) -> (r: FieldElement)
    ensures
        r.inv(),
        r@ == hash_many_values(xs@.map(|i: int, x: FieldElement| x@)),
{
    let ghost values = xs@.map(|i: int, x: FieldElement| x@);
    let mut data: Vec<u8> = Vec::new();
    let mut i: usize = 0;
    proof {
        assert(values.take(0) =~= Seq::<nat>::empty());
    }
    while i < xs.len()
        invariant
            i <= xs@.len(),
            values == xs@.map(|j: int, x: FieldElement| x@),
            data@ == le_bytes_of_values(values.take(i as int)),
        decreases xs@.len() - i,
    {
        let mut piece = xs[i].to_le_bytes();
        data.append(&mut piece);
        i = i + 1;
        proof {
            lemma_le_bytes_of_values_push(values.take(i - 1), values[i - 1]);
            assert(values.take(i as int) =~= values.take(i - 1).push(values[i - 1]));
        }
    }
    proof {
        assert(values.take(xs@.len() as int) =~= values);
    }
    sha256_field(&data)
}

/// Relies on `ark_std::UniformRand` for `ark_bn254::Fr`, sampled from
/// `ark_std::test_rng`: every outcome is a canonical field element; nothing
/// else is assumed of the value.
#[verifier::external_body]
pub(crate) fn random_field_element() -> (r: FieldElement)
    ensures
        r.inv(),
{
    let mut rng = ark_std::test_rng();
    let out = ark_bn254::Fr::rand(&mut rng).into_bigint().0;
    FieldElement { limb0: out[0], limb1: out[1], limb2: out[2], limb3: out[3] }
}

/// Relies on `rand::Rng::gen_range` with `ark_std::test_rng`: a value drawn
/// from `i32::MIN .. i32::MAX`, so `i32::MAX` itself is never returned.
#[verifier::external_body]
pub(crate) fn random_i32() -> (r: i32)
    ensures
        r < i32::MAX,
{
    let mut rng = ark_std::test_rng();
    rng.gen_range(i32::MIN..i32::MAX)
}

} // verus!
