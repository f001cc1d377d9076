//! The scalar field that all domain values (amounts, secrets, hashes, ids)
//! live in: the bn254 scalar field. An element is held in canonical form as
//! four 64-bit little-endian limbs; its mathematical value is a natural
//! number below the field modulus. Addition, reduction of signed machine
//! integers, and the canonical byte serialization are implemented and
//! proved here as plain limb arithmetic.

use vstd::prelude::*;
use vstd::arithmetic::div_mod::{
    lemma_div_denominator, lemma_fundamental_div_mod, lemma_fundamental_div_mod_converse,
    lemma_multiply_divide_lt, lemma_small_mod,
};

verus! {

/// The order of the bn254 scalar field, as declared by `ark_bn254::FrConfig`.
pub open spec fn field_modulus() -> nat {
    21888242871839275222246405745257275088548364400416034343698204186575808495617nat
}

/// `v` reduced into the canonical range `0 .. field_modulus()`.
pub open spec fn mod_value(v: int) -> nat {
    (v % (field_modulus() as int)) as nat
}

/// The sum of two canonical values, reduced.
pub open spec fn fe_add_spec(a: nat, b: nat) -> nat {
    mod_value(a + b as int)
}

/// An element of the scalar field, stored as its canonical little-endian
/// 64-bit limbs.
#[derive(Clone, Copy, Debug, PartialEq, Eq, Structural)]
pub struct FieldElement {
    pub limb0: u64,
    pub limb1: u64,
    pub limb2: u64,
    pub limb3: u64,
}

impl View for FieldElement {
    type V = nat;

    open spec fn view(&self) -> nat {
        (self.limb0
            + self.limb1 * 0x1_0000_0000_0000_0000
            + self.limb2 * 0x1_0000_0000_0000_0000_0000_0000_0000_0000
            + self.limb3
                * 0x1_0000_0000_0000_0000_0000_0000_0000_0000_0000_0000_0000_0000) as nat
    }
}

impl FieldElement {
    /// Canonical form: the value is fully reduced.
    pub open spec fn inv(&self) -> bool {
        self@ < field_modulus()
    }

    /// Embeds a machine integer into the field; no reduction is needed
    /// because the modulus is far above `u64::MAX`.
    pub fn from_u64(n: u64) -> (r: FieldElement)
        ensures
            r.inv(),
            r@ == n as nat,
    {
        FieldElement { limb0: n, limb1: 0, limb2: 0, limb3: 0 }
    }

    /// The additive identity.
    pub fn zero() -> (r: FieldElement)
        ensures
            r.inv(),
            r@ == 0,
    {
        FieldElement::from_u64(0)
    }

    /// The canonical fixed-width serialization: 32 bytes, little-endian.
    #[verifier::rlimit(60)]
    pub fn to_le_bytes(&self) -> (r: Vec<u8>)
        ensures
            r@ == le_bytes_value(self@),
            r@.len() == 32,
    {
        let mut r: Vec<u8> = Vec::new();
        push_limb_le_bytes(&mut r, self.limb0);
        push_limb_le_bytes(&mut r, self.limb1);
        push_limb_le_bytes(&mut r, self.limb2);
        push_limb_le_bytes(&mut r, self.limb3);
        proof {
            assert(r@ =~= le_bytes_spec(*self));
            lemma_le_bytes_of_value(*self);
        }
        r
    }
}

/// The value of a little-endian byte string.
pub open spec fn bytes_value(s: Seq<u8>) -> nat
    decreases s.len(),
{
    if s.len() == 0 {
        0
    } else {
        (s[0] + 256 * bytes_value(s.drop_first())) as nat
    }
}

/// One limb read from eight little-endian bytes.
fn limb_from_le_bytes(b: &Vec<u8>, start: usize) -> (l: u64)
    requires
        start + 8 <= b@.len(),
    ensures
        l == b@[start as int] + b@[start + 1] * 0x100 + b@[start + 2] * 0x1_0000 + b@[start + 3]
            * 0x100_0000 + b@[start + 4] * 0x1_0000_0000 + b@[start + 5] * 0x100_0000_0000 + b@[
        start + 6] * 0x1_0000_0000_0000 + b@[start + 7] * 0x100_0000_0000_0000,
{
    let n: usize = b.len();
    proof {
        assert(start + 8 <= n);
    }
    let mut l: u64 = b[start + 7] as u64;
    l = l * 256 + b[start + 6] as u64;
    l = l * 256 + b[start + 5] as u64;
    l = l * 256 + b[start + 4] as u64;
    l = l * 256 + b[start + 3] as u64;
    l = l * 256 + b[start + 2] as u64;
    l = l * 256 + b[start + 1] as u64;
    l = l * 256 + b[start] as u64;
    l
}

/// Reads a 32-byte little-endian string and reduces its value into the
/// canonical range: the modulus is subtracted until the value is below it.
#[verifier::rlimit(60)]
pub fn from_le_bytes_reduced(b: &Vec<u8>) -> (r: FieldElement)
    requires
        b@.len() == 32,
    ensures
        r.inv(),
        r@ == mod_value(bytes_value(b@) as int),
{
    let mut limb0 = limb_from_le_bytes(b, 0);
    let mut limb1 = limb_from_le_bytes(b, 8);
    let mut limb2 = limb_from_le_bytes(b, 16);
    let mut limb3 = limb_from_le_bytes(b, 24);
    let ghost k4: int =
        0x1_0000_0000_0000_0000_0000_0000_0000_0000_0000_0000_0000_0000_0000_0000_0000_0000int;
    let ghost initial: int = limb0 + limb1 * 0x1_0000_0000_0000_0000
        + limb2 * 0x1_0000_0000_0000_0000_0000_0000_0000_0000
        + limb3 * 0x1_0000_0000_0000_0000_0000_0000_0000_0000_0000_0000_0000_0000;
    proof {
        assert(initial == bytes_value(b@)) by {
            reveal_with_fuel(bytes_value, 33);
        }
        assert(MODULUS_LIMB_0 + MODULUS_LIMB_1 * 0x1_0000_0000_0000_0000
            + MODULUS_LIMB_2 * 0x1_0000_0000_0000_0000_0000_0000_0000_0000
            + MODULUS_LIMB_3 * 0x1_0000_0000_0000_0000_0000_0000_0000_0000_0000_0000_0000_0000
            == field_modulus());
    }
    loop
        invariant
            0 <= limb0 + limb1 * 0x1_0000_0000_0000_0000
                + limb2 * 0x1_0000_0000_0000_0000_0000_0000_0000_0000
                + limb3 * 0x1_0000_0000_0000_0000_0000_0000_0000_0000_0000_0000_0000_0000,
            (limb0 + limb1 * 0x1_0000_0000_0000_0000
                + limb2 * 0x1_0000_0000_0000_0000_0000_0000_0000_0000
                + limb3 * 0x1_0000_0000_0000_0000_0000_0000_0000_0000_0000_0000_0000_0000) % (
            field_modulus() as int) == (bytes_value(b@) as int) % (field_modulus() as int),
            MODULUS_LIMB_0 + MODULUS_LIMB_1 * 0x1_0000_0000_0000_0000
                + MODULUS_LIMB_2 * 0x1_0000_0000_0000_0000_0000_0000_0000_0000
                + MODULUS_LIMB_3
                * 0x1_0000_0000_0000_0000_0000_0000_0000_0000_0000_0000_0000_0000
                == field_modulus(),
        decreases limb0 + limb1 * 0x1_0000_0000_0000_0000
            + limb2 * 0x1_0000_0000_0000_0000_0000_0000_0000_0000
            + limb3 * 0x1_0000_0000_0000_0000_0000_0000_0000_0000_0000_0000_0000_0000,
    {
        let ghost current: int = limb0 + limb1 * 0x1_0000_0000_0000_0000
            + limb2 * 0x1_0000_0000_0000_0000_0000_0000_0000_0000
            + limb3 * 0x1_0000_0000_0000_0000_0000_0000_0000_0000_0000_0000_0000_0000;
        let (d0, t1) = sub_with_borrow(limb0, MODULUS_LIMB_0, 0);
        let (d1, t2) = sub_with_borrow(limb1, MODULUS_LIMB_1, t1);
        let (d2, t3) = sub_with_borrow(limb2, MODULUS_LIMB_2, t2);
        let (d3, t4) = sub_with_borrow(limb3, MODULUS_LIMB_3, t3);
        let ghost k4: int =
            0x1_0000_0000_0000_0000_0000_0000_0000_0000_0000_0000_0000_0000_0000_0000_0000_0000int;
        let ghost diff: int = d0 + d1 * 0x1_0000_0000_0000_0000
            + d2 * 0x1_0000_0000_0000_0000_0000_0000_0000_0000
            + d3 * 0x1_0000_0000_0000_0000_0000_0000_0000_0000_0000_0000_0000_0000;
        proof {
            assert(current - field_modulus() == diff - t4 * k4);
            assert(0 <= diff < k4);
        }
        if t4 == 1 {
            // the subtraction borrowed: the current value is already below
            // the modulus
            proof {
                lemma_small_mod(current as nat, field_modulus());
            }
            return FieldElement { limb0, limb1, limb2, limb3 };
        }
        proof {
            vstd::arithmetic::div_mod::lemma_mod_sub_multiples_vanish(
                current,
                field_modulus() as int,
            );
        }
        limb0 = d0;
        limb1 = d1;
        limb2 = d2;
        limb3 = d3;
    }
}

/// The eight little-endian bytes of one limb.
spec fn limb_le_bytes(l: u64) -> Seq<u8> {
    seq![
        (l % 256) as u8,
        ((l / 0x100) % 256) as u8,
        ((l / 0x1_0000) % 256) as u8,
        ((l / 0x100_0000) % 256) as u8,
        ((l / 0x1_0000_0000) % 256) as u8,
        ((l / 0x100_0000_0000) % 256) as u8,
        ((l / 0x1_0000_0000_0000) % 256) as u8,
        ((l / 0x100_0000_0000_0000) % 256) as u8,
    ]
}

/// The 32-byte little-endian serialization of an element: the bytes of
/// its limbs, least significant limb first.
spec fn le_bytes_spec(x: FieldElement) -> Seq<u8> {
    limb_le_bytes(x.limb0) + limb_le_bytes(x.limb1) + limb_le_bytes(x.limb2) + limb_le_bytes(
        x.limb3,
    )
}

/// 256 to the power `t`.
pub open spec fn pow256(t: nat) -> nat
    decreases t,
{
    if t == 0 {
        1
    } else {
        256 * pow256((t - 1) as nat)
    }
}

/// The `n` little-endian base-256 digits of `v`.
pub open spec fn le_bytes_value_n(v: nat, n: nat) -> Seq<u8>
    decreases n,
{
    if n == 0 {
        Seq::empty()
    } else {
        seq![(v % 256) as u8] + le_bytes_value_n(v / 256, (n - 1) as nat)
    }
}

/// The 32 little-endian bytes of a value below `2^256`.
pub open spec fn le_bytes_value(v: nat) -> Seq<u8> {
    le_bytes_value_n(v, 32)
}

/// Splitting a value at a byte boundary splits its digit sequence: for
/// `low` below `256^t`, the digits of `low + 256^t * h` are the `t` digits
/// of `low` followed by the digits of `h`.
proof fn lemma_le_bytes_split(low: nat, h: nat, t: nat, m: nat)
    requires
        low < pow256(t),
    ensures
        le_bytes_value_n(low + pow256(t) * h, (t + m) as nat) == le_bytes_value_n(low, t)
            + le_bytes_value_n(h, m),
    decreases t,
{
    if t == 0 {
        assert(low + pow256(0) * h == h) by (nonlinear_arith)
            requires
                low == 0,
                pow256(0) == 1,
        ;
        assert(le_bytes_value_n(low, 0) + le_bytes_value_n(h, m) =~= le_bytes_value_n(h, m));
    } else {
        let mp = pow256((t - 1) as nat);
        let v = (low + pow256(t) * h) as nat;
        assert(pow256(t) == 256 * mp);
        lemma_fundamental_div_mod(low as int, 256);
        let q = (low / 256 + mp * h) as nat;
        assert(v == q * 256 + (low % 256)) by (nonlinear_arith)
            requires
                v == low + (256 * mp) * h,
                low == 256 * (low as int / 256) + (low as int % 256),
                q == low / 256 + mp * h,
        ;
        lemma_fundamental_div_mod_converse(v as int, 256, q as int, (low % 256) as int);
        assert(v % 256 == low % 256);
        assert(v / 256 == q);
        lemma_multiply_divide_lt(low as int, 256, mp as int);
        assert(low / 256 < mp);
        lemma_le_bytes_split(low / 256, h, (t - 1) as nat, m);
        assert(le_bytes_value_n(v, (t + m) as nat) =~= le_bytes_value_n(low, t)
            + le_bytes_value_n(h, m));
    }
}

/// The per-limb byte formulas are the base-256 digits of the limb.
proof fn lemma_limb_bytes(l: u64)
    ensures
        limb_le_bytes(l) == le_bytes_value_n(l as nat, 8),
{
    assert(limb_le_bytes(l) =~= le_bytes_value_n(l as nat, 8)) by {
        reveal_with_fuel(le_bytes_value_n, 9);
        lemma_div_denominator(l as int, 0x100, 0x100);
        lemma_div_denominator(l as int, 0x1_0000, 0x100);
        lemma_div_denominator(l as int, 0x100_0000, 0x100);
        lemma_div_denominator(l as int, 0x1_0000_0000, 0x100);
        lemma_div_denominator(l as int, 0x100_0000_0000, 0x100);
        lemma_div_denominator(l as int, 0x1_0000_0000_0000, 0x100);
        lemma_div_denominator(l as int, 0x100_0000_0000_0000, 0x100);
    }
}

/// The serialized limbs are exactly the base-256 digits of the element's
/// value: the byte encoding depends on the value alone.
proof fn lemma_le_bytes_of_value(x: FieldElement)
    ensures
        le_bytes_spec(x) == le_bytes_value(x@),
{
    let base: int = 0x1_0000_0000_0000_0000;
    let r1: nat = (x.limb1 + x.limb2 * base + x.limb3 * base * base) as nat;
    let r2: nat = (x.limb2 + x.limb3 * base) as nat;
    let r3: nat = x.limb3 as nat;
    assert(pow256(8) == base) by {
        reveal_with_fuel(pow256, 9);
    }
    assert(x@ == x.limb0 + pow256(8) * r1) by (nonlinear_arith)
        requires
            x@ == (x.limb0 + x.limb1 * base + x.limb2 * (base * base) + x.limb3 * (base * base
                * base)) as nat,
            r1 == x.limb1 + x.limb2 * base + x.limb3 * base * base,
            pow256(8) == base,
            base == 0x1_0000_0000_0000_0000,
    ;
    assert(r1 == x.limb1 + pow256(8) * r2) by (nonlinear_arith)
        requires
            r1 == x.limb1 + x.limb2 * base + x.limb3 * base * base,
            r2 == x.limb2 + x.limb3 * base,
            pow256(8) == base,
    ;
    assert(r2 == x.limb2 + pow256(8) * r3) by (nonlinear_arith)
        requires
            r2 == x.limb2 + x.limb3 * base,
            r3 == x.limb3,
            pow256(8) == base,
    ;
    lemma_le_bytes_split(x.limb0 as nat, r1, 8, 24);
    lemma_le_bytes_split(x.limb1 as nat, r2, 8, 16);
    lemma_le_bytes_split(x.limb2 as nat, r3, 8, 8);
    lemma_limb_bytes(x.limb0);
    lemma_limb_bytes(x.limb1);
    lemma_limb_bytes(x.limb2);
    lemma_limb_bytes(x.limb3);
    assert(le_bytes_spec(x) =~= le_bytes_value(x@));
}

fn push_limb_le_bytes(out: &mut Vec<u8>, l: u64)
    ensures
        final(out)@ == old(out)@ + limb_le_bytes(l),
{
    out.push((l % 256) as u8);
    out.push(((l / 0x100) % 256) as u8);
    out.push(((l / 0x1_0000) % 256) as u8);
    out.push(((l / 0x100_0000) % 256) as u8);
    out.push(((l / 0x1_0000_0000) % 256) as u8);
    out.push(((l / 0x100_0000_0000) % 256) as u8);
    out.push(((l / 0x1_0000_0000_0000) % 256) as u8);
    out.push(((l / 0x100_0000_0000_0000) % 256) as u8);
    proof {
        assert(out@ =~= old(out)@ + limb_le_bytes(l));
    }
}

/// A value below `2^256` has exactly one little-endian 64-bit limb
/// decomposition, so elements with equal values are equal limb for limb.
pub proof fn lemma_eq_by_value(a: FieldElement, b: FieldElement)
    requires
        a@ == b@,
    ensures
        a == b,
{
    let base: int = 0x1_0000_0000_0000_0000;
    let a_rest: int = a.limb1 + a.limb2 * base + a.limb3 * base * base;
    let b_rest: int = b.limb1 + b.limb2 * base + b.limb3 * base * base;
    assert(a@ == a.limb0 + a_rest * base) by (nonlinear_arith)
        requires
            a@ == (a.limb0 + a.limb1 * base + a.limb2 * (base * base) + a.limb3 * (base * base
                * base)) as nat,
            a_rest == a.limb1 + a.limb2 * base + a.limb3 * base * base,
            base == 0x1_0000_0000_0000_0000,
    ;
    assert(b@ == b.limb0 + b_rest * base) by (nonlinear_arith)
        requires
            b@ == (b.limb0 + b.limb1 * base + b.limb2 * (base * base) + b.limb3 * (base * base
                * base)) as nat,
            b_rest == b.limb1 + b.limb2 * base + b.limb3 * base * base,
            base == 0x1_0000_0000_0000_0000,
    ;
    lemma_fundamental_div_mod_converse(a@ as int, base, a_rest, a.limb0 as int);
    lemma_fundamental_div_mod_converse(b@ as int, base, b_rest, b.limb0 as int);
    assert(a.limb0 == b.limb0);
    assert(a_rest == b_rest);
    let a_hi: int = a.limb2 + a.limb3 * base;
    let b_hi: int = b.limb2 + b.limb3 * base;
    assert(a_rest == a.limb1 + a_hi * base) by (nonlinear_arith)
        requires
            a_rest == a.limb1 + a.limb2 * base + a.limb3 * base * base,
            a_hi == a.limb2 + a.limb3 * base,
            base == 0x1_0000_0000_0000_0000,
    ;
    assert(b_rest == b.limb1 + b_hi * base) by (nonlinear_arith)
        requires
            b_rest == b.limb1 + b.limb2 * base + b.limb3 * base * base,
            b_hi == b.limb2 + b.limb3 * base,
            base == 0x1_0000_0000_0000_0000,
    ;
    lemma_fundamental_div_mod_converse(a_rest, base, a_hi, a.limb1 as int);
    lemma_fundamental_div_mod_converse(b_rest, base, b_hi, b.limb1 as int);
    assert(a.limb1 == b.limb1);
    assert(a_hi == b_hi);
    lemma_fundamental_div_mod_converse(a_hi, base, a.limb3 as int, a.limb2 as int);
    lemma_fundamental_div_mod_converse(b_hi, base, b.limb3 as int, b.limb2 as int);
    assert(a.limb2 == b.limb2);
    assert(a.limb3 == b.limb3);
}

/// The little-endian 64-bit limbs of the field modulus.
const MODULUS_LIMB_0: u64 = 0x43E1F593F0000001;

const MODULUS_LIMB_1: u64 = 0x2833E84879B97091;

const MODULUS_LIMB_2: u64 = 0xB85045B68181585D;

const MODULUS_LIMB_3: u64 = 0x30644E72E131A029;

/// One step of multi-limb addition: the pair `(sum, carry out)` with
/// `a + b + carry == sum + carry_out * 2^64`.
fn add_with_carry(a: u64, b: u64, carry: u64) -> (r: (u64, u64))
    requires
        carry <= 1,
    ensures
        r.1 <= 1,
        a + b + carry == r.0 + r.1 * 0x1_0000_0000_0000_0000,
{
    let wide: u128 = a as u128 + b as u128 + carry as u128;
    proof {
        lemma_fundamental_div_mod(wide as int, 0x1_0000_0000_0000_0000);
        lemma_multiply_divide_lt(wide as int, 0x1_0000_0000_0000_0000, 2);
    }
    let lo: u64 = (wide % 0x1_0000_0000_0000_0000) as u64;
    let hi: u64 = (wide / 0x1_0000_0000_0000_0000) as u64;
    (lo, hi)
}

/// One step of multi-limb subtraction: the pair `(difference, borrow out)`
/// with `a - b - borrow == difference - borrow_out * 2^64`.
fn sub_with_borrow(a: u64, b: u64, borrow: u64) -> (r: (u64, u64))
    requires
        borrow <= 1,
    ensures
        r.1 <= 1,
        a - b - borrow == r.0 - r.1 * 0x1_0000_0000_0000_0000,
{
    let wide: u128 = 0x1_0000_0000_0000_0000u128 + a as u128 - b as u128 - borrow as u128;
    proof {
        lemma_fundamental_div_mod(wide as int, 0x1_0000_0000_0000_0000);
        lemma_multiply_divide_lt(wide as int, 0x1_0000_0000_0000_0000, 2);
    }
    let lo: u64 = (wide % 0x1_0000_0000_0000_0000) as u64;
    let hi: u64 = (wide / 0x1_0000_0000_0000_0000) as u64;
    (lo, 1 - hi)
}

/// Addition in the field: the limbs are added with carries and the modulus
/// is subtracted once when the raw sum reaches it.
pub fn fe_add(a: &FieldElement, b: &FieldElement) -> (r: FieldElement)
    requires
        a.inv(),
        b.inv(),
    ensures
        r.inv(),
        r@ == fe_add_spec(a@, b@),
{
    let (s0, c1) = add_with_carry(a.limb0, b.limb0, 0);
    let (s1, c2) = add_with_carry(a.limb1, b.limb1, c1);
    let (s2, c3) = add_with_carry(a.limb2, b.limb2, c2);
    let (s3, c4) = add_with_carry(a.limb3, b.limb3, c3);
    let ghost k4: int = 0x1_0000_0000_0000_0000_0000_0000_0000_0000_0000_0000_0000_0000_0000_0000_0000_0000int;
    let ghost sum: int = s0 + s1 * 0x1_0000_0000_0000_0000
        + s2 * 0x1_0000_0000_0000_0000_0000_0000_0000_0000
        + s3 * 0x1_0000_0000_0000_0000_0000_0000_0000_0000_0000_0000_0000_0000;
    proof {
        assert(a@ + b@ == sum + c4 * k4);
        assert(a@ + b@ < 2 * field_modulus());
        assert(c4 == 0);
    }
    let (d0, t1) = sub_with_borrow(s0, MODULUS_LIMB_0, 0);
    let (d1, t2) = sub_with_borrow(s1, MODULUS_LIMB_1, t1);
    let (d2, t3) = sub_with_borrow(s2, MODULUS_LIMB_2, t2);
    let (d3, t4) = sub_with_borrow(s3, MODULUS_LIMB_3, t3);
    let ghost diff: int = d0 + d1 * 0x1_0000_0000_0000_0000
        + d2 * 0x1_0000_0000_0000_0000_0000_0000_0000_0000
        + d3 * 0x1_0000_0000_0000_0000_0000_0000_0000_0000_0000_0000_0000_0000;
    proof {
        assert(MODULUS_LIMB_0 + MODULUS_LIMB_1 * 0x1_0000_0000_0000_0000
            + MODULUS_LIMB_2 * 0x1_0000_0000_0000_0000_0000_0000_0000_0000
            + MODULUS_LIMB_3 * 0x1_0000_0000_0000_0000_0000_0000_0000_0000_0000_0000_0000_0000
            == field_modulus());
        assert(sum - field_modulus() == diff - t4 * k4);
        assert(0 <= diff < k4);
    }
    if t4 == 0 {
        proof {
            lemma_fundamental_div_mod_converse(
                (a@ + b@) as int,
                field_modulus() as int,
                1,
                diff,
            );
        }
        FieldElement { limb0: d0, limb1: d1, limb2: d2, limb3: d3 }
    } else {
        proof {
            lemma_small_mod((a@ + b@) as nat, field_modulus());
        }
        FieldElement { limb0: s0, limb1: s1, limb2: s2, limb3: s3 }
    }
}

/// Embeds a signed machine integer into the field: a non-negative value is
/// its own residue; a negative value lands at `modulus - |v|`, the
/// Euclidean remainder.
pub fn fe_from_i64(v: i64) -> (r: FieldElement)
    ensures
        r.inv(),
        r@ == mod_value(v as int),
{
    if v >= 0 {
        let r = FieldElement::from_u64(v as u64);
        proof {
            lemma_small_mod(v as nat, field_modulus());
        }
        r
    } else {
        let magnitude: u64 = ((-(v + 1)) as u64) + 1;
        let (d0, t1) = sub_with_borrow(MODULUS_LIMB_0, magnitude, 0);
        let (d1, t2) = sub_with_borrow(MODULUS_LIMB_1, 0, t1);
        let (d2, t3) = sub_with_borrow(MODULUS_LIMB_2, 0, t2);
        let (d3, t4) = sub_with_borrow(MODULUS_LIMB_3, 0, t3);
        let ghost k4: int = 0x1_0000_0000_0000_0000_0000_0000_0000_0000_0000_0000_0000_0000_0000_0000_0000_0000int;
        let ghost diff: int = d0 + d1 * 0x1_0000_0000_0000_0000
            + d2 * 0x1_0000_0000_0000_0000_0000_0000_0000_0000
            + d3 * 0x1_0000_0000_0000_0000_0000_0000_0000_0000_0000_0000_0000_0000;
        proof {
            assert(magnitude == -(v as int));
            assert(MODULUS_LIMB_0 + MODULUS_LIMB_1 * 0x1_0000_0000_0000_0000
                + MODULUS_LIMB_2 * 0x1_0000_0000_0000_0000_0000_0000_0000_0000
                + MODULUS_LIMB_3
                * 0x1_0000_0000_0000_0000_0000_0000_0000_0000_0000_0000_0000_0000
                == field_modulus());
            assert(field_modulus() - magnitude == diff - t4 * k4);
            assert(0 <= diff < k4);
            assert(t4 == 0);
            lemma_fundamental_div_mod_converse(v as int, field_modulus() as int, -1, diff);
        }
        FieldElement { limb0: d0, limb1: d1, limb2: d2, limb3: d3 }
    }
}

} // verus!
