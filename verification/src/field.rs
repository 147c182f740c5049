//! Elements of the scalar field of the BN128 curve.

use vstd::arithmetic::div_mod::{lemma_add_mod_noop, lemma_mul_mod_noop_general};
use vstd::arithmetic::power::{
    lemma_pow0, lemma_pow1, lemma_pow_adds, lemma_pow_mod_noop, lemma_pow_multiplies,
    lemma_square_is_pow2, pow,
};
use vstd::prelude::*;
use vstd::std_specs::cmp::PartialEqSpecImpl;
use vstd::std_specs::convert::FromSpecImpl;

verus! {

/// The weight of the high limb of an element: 2^128.
pub open spec fn limb_base() -> nat {
    0x1_0000_0000_0000_0000_0000_0000_0000_0000nat
}

/// The order of the field.
pub open spec fn modulus() -> nat {
    21888242871839275222246405745257275088548364400416034343698204186575808495617nat
}

/// What the inverse of `b` is if it has one: `b` to the power of the modulus
/// less two. It is the inverse of every `b` but zero where the modulus is
/// prime.
pub open spec fn inverse_candidate(b: nat) -> nat {
    (pow(b as int, (modulus() - 2) as nat) % (modulus() as int)) as nat
}

/// The quotient of `a` by `b` in the field: `a` times the inverse of `b`,
/// where `b` has one.
pub open spec fn quotient(a: nat, b: nat) -> Option<nat> {
    let c = inverse_candidate(b);
    if (b * c) % modulus() == 1 {
        Some((a * c) % modulus())
    } else {
        None
    }
}

/// The high limb of the modulus.
pub const MODULUS_HI: u128 = 0x30644e72e131a029b85045b68181585d;

/// The low limb of the modulus.
pub const MODULUS_LO: u128 = 0x2833e84879b9709143e1f593f0000001;

/// A field element, held as its least non-negative representative in two
/// 128-bit limbs.
#[derive(Debug)]
pub struct FieldElement {
    hi: u128,
    lo: u128,
}

impl View for FieldElement {
    type V = nat;

    closed spec fn view(&self) -> nat {
        (self.hi * limb_base() + self.lo) as nat
    }
}

impl FieldElement {
    #[verifier::type_invariant]
    spec fn reduced(&self) -> bool {
        self@ < modulus()
    }

    /// The two limbs of an element are determined by its value.
    pub proof fn lemma_view_injective(a: FieldElement, b: FieldElement)
        requires
            a@ == b@,
        ensures
            a == b,
    {
    }

    /// The additive identity.
    pub fn zero() -> (r: FieldElement)
        ensures
            r@ == 0,
    {
        FieldElement { hi: 0, lo: 0 }
    }

    /// The multiplicative identity.
    pub fn one() -> (r: FieldElement)
        ensures
            r@ == 1,
    {
        FieldElement { hi: 0, lo: 1 }
    }

    /// The element that a 64-bit unsigned integer stands for.
    pub fn from_u64(v: u64) -> (r: FieldElement)
        ensures
            r@ == v,
            r == FieldElement::from_nat(v as nat),
    {
        FieldElement { hi: 0, lo: v as u128 }
    }

    /// The element with the given value, for a value below the modulus.
    pub closed spec fn from_nat(v: nat) -> FieldElement {
        FieldElement { hi: (v / limb_base()) as u128, lo: (v % limb_base()) as u128 }
    }

    /// `from_nat` is the inverse of the view.
    pub proof fn lemma_from_nat(v: nat)
        requires
            v < modulus(),
        ensures
            FieldElement::from_nat(v)@ == v,
    {
    }

    /// An element is the one that `from_nat` makes of its value.
    pub proof fn lemma_from_nat_view(a: FieldElement)
        ensures
            FieldElement::from_nat(a@) == a,
    {
    }

    /// The sum of two elements.
    pub fn add(&self, other: &FieldElement) -> (r: FieldElement)
        ensures
            r@ == (self@ + other@) % modulus(),
            r == FieldElement::from_nat((self@ + other@) % modulus()),
    {
        proof {
            use_type_invariant(self);
            use_type_invariant(other);
        }
        let lo_sum = self.lo.wrapping_add(other.lo);
        let carry: u128 = if lo_sum < self.lo {
            1
        } else {
            0
        };
        let hi_sum = self.hi + other.hi + carry;
        if hi_sum > MODULUS_HI || (hi_sum == MODULUS_HI && lo_sum >= MODULUS_LO) {
            let borrow: u128 = if lo_sum < MODULUS_LO {
                1
            } else {
                0
            };
            FieldElement { hi: hi_sum - MODULUS_HI - borrow, lo: lo_sum.wrapping_sub(MODULUS_LO) }
        } else {
            FieldElement { hi: hi_sum, lo: lo_sum }
        }
    }

    /// The difference of two elements.
    pub fn sub(&self, other: &FieldElement) -> (r: FieldElement)
        ensures
            r@ == (self@ - other@) % (modulus() as int),
            r == FieldElement::from_nat(((self@ - other@) % (modulus() as int)) as nat),
    {
        proof {
            use_type_invariant(self);
            use_type_invariant(other);
        }
        if self.hi > other.hi || (self.hi == other.hi && self.lo >= other.lo) {
            let borrow: u128 = if self.lo < other.lo {
                1
            } else {
                0
            };
            FieldElement { hi: self.hi - other.hi - borrow, lo: self.lo.wrapping_sub(other.lo) }
        } else {
            // other - self, then the modulus minus that
            let borrow: u128 = if other.lo < self.lo {
                1
            } else {
                0
            };
            let d_hi = other.hi - self.hi - borrow;
            let d_lo = other.lo.wrapping_sub(self.lo);
            let borrow2: u128 = if MODULUS_LO < d_lo {
                1
            } else {
                0
            };
            FieldElement { hi: MODULUS_HI - d_hi - borrow2, lo: MODULUS_LO.wrapping_sub(d_lo) }
        }
    }

    /// The product of two elements.
    pub fn mul(&self, other: &FieldElement) -> (r: FieldElement)
        ensures
            r@ == (self@ * other@) % modulus(),
            r == FieldElement::from_nat((self@ * other@) % modulus()),
    {
        proof {
            use_type_invariant(self);
            use_type_invariant(other);
        }
        let ghost a = self@ as int;
        let ghost b = other@ as int;
        let ghost p = modulus() as int;
        let mut acc = FieldElement::zero();
        let mut m = *self;
        let mut k_hi = other.hi;
        let mut k_lo = other.lo;
        assert((0 + a * b) % p == (a * b) % p);
        while k_hi != 0 || k_lo != 0
            invariant
                a == self@,
                b == other@,
                p == modulus(),
                (acc@ + m@ * (k_hi * limb_base() + k_lo)) % p == (a * b) % p,
            decreases k_hi * limb_base() + k_lo,
        {
            let ghost k = (k_hi * limb_base() + k_lo) as int;
            let ghost old_acc = acc@ as int;
            let ghost old_m = m@ as int;
            proof {
                use_type_invariant(&acc);
                use_type_invariant(&m);
            }
            let odd = k_lo % 2 == 1;
            if odd {
                acc = acc.add(&m);
            }
            m = m.add(&m);
            k_lo = k_lo / 2 + (k_hi % 2) * 0x8000_0000_0000_0000_0000_0000_0000_0000u128;
            k_hi = k_hi / 2;
            proof {
                let k2 = (k_hi * limb_base() + k_lo) as int;
                let bit: int = if odd { 1 } else { 0 };
                assert(k == 2 * k2 + bit);
                assert(bit * old_m == if odd { old_m } else { 0 });
                assert(acc@ == (old_acc + bit * old_m) % p);
                assert(m@ == (2 * old_m) % p);
                // (acc' + m' * k2) % p == (old_acc + bit * old_m + 2 * old_m * k2) % p
                lemma_mul_mod_noop_general(2 * old_m, k2, p);
                lemma_add_mod_noop(old_acc + bit * old_m, (2 * old_m) * k2, p);
                lemma_add_mod_noop(acc@ as int, m@ * k2, p);
                assert(old_acc + bit * old_m + (2 * old_m) * k2 == old_acc + old_m * k)
                    by (nonlinear_arith)
                    requires
                        k == 2 * k2 + bit,
                ;
            }
        }
        proof {
            assert(m@ * 0 == 0);
            use_type_invariant(&acc);
        }
        acc
    }

    /// The element to the power of the modulus less two.
    fn inverse_candidate(&self) -> (r: FieldElement)
        ensures
            r@ == inverse_candidate(self@),
    {
        let ghost b = self@ as int;
        let ghost p = modulus() as int;
        let ghost e0 = (modulus() - 2) as nat;
        let mut acc = FieldElement::one();
        let mut base = *self;
        let mut k_hi = MODULUS_HI;
        let mut k_lo = MODULUS_LO - 2;
        proof {
            assert(k_hi * limb_base() + k_lo == e0);
            assert(1 * pow(b, e0) == pow(b, e0));
        }
        while k_hi != 0 || k_lo != 0
            invariant
                b == self@,
                p == modulus(),
                (acc@ * pow(base@ as int, (k_hi * limb_base() + k_lo) as nat)) % p == pow(b, e0) % p,
            decreases k_hi * limb_base() + k_lo,
        {
            let ghost k = (k_hi * limb_base() + k_lo) as nat;
            let ghost old_acc = acc@ as int;
            let ghost old_base = base@ as int;
            let odd = k_lo % 2 == 1;
            if odd {
                acc = acc.mul(&base);
            }
            base = base.mul(&base);
            k_lo = k_lo / 2 + (k_hi % 2) * 0x8000_0000_0000_0000_0000_0000_0000_0000u128;
            k_hi = k_hi / 2;
            proof {
                use_type_invariant(&acc);
                let k2 = (k_hi * limb_base() + k_lo) as nat;
                let bit: nat = if odd { 1 } else { 0 };
                assert(k == 2 * k2 + bit);
                let square = old_base * old_base;
                // pow(old_base, k) == pow(square, k2) * pow(old_base, bit)
                lemma_pow_adds(old_base, 2 * k2, bit);
                lemma_pow_multiplies(old_base, 2, k2);
                lemma_square_is_pow2(old_base);
                lemma_pow0(old_base);
                lemma_pow1(old_base);
                let factor = pow(old_base, bit);
                assert(pow(old_base, k) == pow(square, k2) * factor);
                // the new accumulator and the new base, modulo p
                assert(acc@ == (old_acc * factor) % p) by {
                    if !odd {
                        assert(old_acc * 1 == old_acc);
                    }
                }
                assert(base@ == square % p);
                lemma_pow_mod_noop(square, k2, p);
                let x = pow(base@ as int, k2);
                let y = pow(square, k2);
                assert(x % p == y % p);
                lemma_mul_mod_noop_general(acc@ as int, x, p);
                lemma_mul_mod_noop_general(acc@ as int, y, p);
                lemma_mul_mod_noop_general(old_acc * factor, y, p);
                assert((acc@ * x) % p == ((old_acc * factor) * y) % p);
                assert((old_acc * factor) * y == old_acc * (y * factor)) by (nonlinear_arith);
            }
        }
        proof {
            lemma_pow0(base@ as int);
            assert(acc@ * 1 == acc@);
            use_type_invariant(&acc);
        }
        acc
    }

    /// The quotient of `self` by `other`, where `other` has an inverse.
    pub fn div(&self, other: &FieldElement) -> (r: Option<FieldElement>)
        ensures
            match r {
                Some(q) => quotient(self@, other@) == Some(q@) && q == FieldElement::from_nat(q@),
                None => quotient(self@, other@).is_none(),
            },
    {
        let c = other.inverse_candidate();
        let check = other.mul(&c);
        if check.hi == 0 && check.lo == 1 {
            Some(self.mul(&c))
        } else {
            None
        }
    }

    /// Whether the element is the additive identity.
    pub fn is_zero(&self) -> (r: bool)
        ensures
            r == (self@ == 0),
    {
        self.hi == 0 && self.lo == 0
    }

    /// Whether `self` comes strictly before `other` as an integer.
    pub fn less_than(&self, other: &FieldElement) -> (r: bool)
        ensures
            r == (self@ < other@),
    {
        self.hi < other.hi || (self.hi == other.hi && self.lo < other.lo)
    }

    /// The little-endian bytes of the two limbs, low limb first.
    pub fn to_bytes(&self) -> (bytes: Vec<u8>)
        ensures
            bytes@ == field_bytes(self@),
    {
        let mut bytes = vstd::bytes::u128_to_le_bytes(self.lo);
        let mut high = vstd::bytes::u128_to_le_bytes(self.hi);
        bytes.append(&mut high);
        bytes
    }
}

/// The byte encoding of a value below 2^256: thirty-two bytes, little-endian.
pub open spec fn field_bytes(v: nat) -> Seq<u8> {
    vstd::bytes::spec_u128_to_le_bytes((v % limb_base()) as u128)
        + vstd::bytes::spec_u128_to_le_bytes((v / limb_base()) as u128)
}

impl Clone for FieldElement {
    fn clone(&self) -> (r: FieldElement)
        ensures
            r == *self,
    {
        proof {
            use_type_invariant(self);
        }
        FieldElement { hi: self.hi, lo: self.lo }
    }
}

impl Copy for FieldElement {}

/// The value of the element that a signed integer stands for: the integer
/// itself, or the modulus less its size where it is negative.
pub open spec fn value_of_signed(v: int) -> nat {
    if v >= 0 {
        v as nat
    } else {
        (modulus() + v) as nat
    }
}

impl From<u64> for FieldElement {
    fn from(v: u64) -> (r: FieldElement) {
        FieldElement::from_u64(v)
    }
}

impl FromSpecImpl<u64> for FieldElement {
    open spec fn obeys_from_spec() -> bool {
        true
    }

    open spec fn from_spec(v: u64) -> FieldElement {
        FieldElement::from_nat(v as nat)
    }
}

impl From<u32> for FieldElement {
    fn from(v: u32) -> (r: FieldElement) {
        FieldElement::from_u64(v as u64)
    }
}

impl FromSpecImpl<u32> for FieldElement {
    open spec fn obeys_from_spec() -> bool {
        true
    }

    open spec fn from_spec(v: u32) -> FieldElement {
        FieldElement::from_nat(v as nat)
    }
}

impl From<usize> for FieldElement {
    fn from(v: usize) -> (r: FieldElement) {
        FieldElement::from_u64(v as u64)
    }
}

impl FromSpecImpl<usize> for FieldElement {
    open spec fn obeys_from_spec() -> bool {
        true
    }

    open spec fn from_spec(v: usize) -> FieldElement {
        FieldElement::from_nat(v as nat)
    }
}

impl From<i32> for FieldElement {
    fn from(v: i32) -> (r: FieldElement) {
        if v >= 0 {
            FieldElement::from_u64(v as u64)
        } else {
            let size = FieldElement::from_u64((-(v as i64)) as u64);
            FieldElement::zero().sub(&size)
        }
    }
}

impl FromSpecImpl<i32> for FieldElement {
    open spec fn obeys_from_spec() -> bool {
        true
    }

    open spec fn from_spec(v: i32) -> FieldElement {
        FieldElement::from_nat(value_of_signed(v as int))
    }
}

impl PartialEq for FieldElement {
    fn eq(&self, other: &FieldElement) -> (r: bool) {
        self.hi == other.hi && self.lo == other.lo
    }
}

impl Eq for FieldElement {}

impl PartialEqSpecImpl for FieldElement {
    open spec fn obeys_eq_spec() -> bool {
        true
    }

    open spec fn eq_spec(&self, other: &FieldElement) -> bool {
        self@ == other@
    }
}

} // verus!
