//! Elements of the Pallas base field, held in canonical form as four
//! little-endian 64-bit limbs.

use vstd::arithmetic::div_mod::{lemma_fundamental_div_mod_converse, lemma_small_mod};
use vstd::prelude::*;

verus! {

/// The prime `p` of the Pallas base field.
pub open spec fn modulus() -> nat {
    0x4000_0000_0000_0000_0000_0000_0000_0000_2246_98fc_094c_f91b_992d_30ed_0000_0001nat
}

/// The lowest limb of the modulus.
const MODULUS_0: u64 = 0x992d_30ed_0000_0001;

/// The second limb of the modulus.
const MODULUS_1: u64 = 0x2246_98fc_094c_f91b;

/// The third limb of the modulus.
const MODULUS_2: u64 = 0;

/// The highest limb of the modulus.
const MODULUS_3: u64 = 0x4000_0000_0000_0000;

/// Two to the power 64, the weight of the second limb.
const RADIX: u128 = 0x1_0000_0000_0000_0000;

/// The integer that four little-endian 64-bit limbs stand for.
pub open spec fn limbs_value(l0: u64, l1: u64, l2: u64, l3: u64) -> nat {
    (l0 as nat) + (l1 as nat) * 0x1_0000_0000_0000_0000nat + (l2 as nat)
        * 0x1_0000_0000_0000_0000_0000_0000_0000_0000nat + (l3 as nat)
        * 0x1_0000_0000_0000_0000_0000_0000_0000_0000_0000_0000_0000_0000nat
}

/// The integer that an array of four little-endian limbs stands for.
pub open spec fn limbs_nat(limbs: [u64; 4]) -> nat {
    limbs_value(limbs[0], limbs[1], limbs[2], limbs[3])
}

/// The sum of two reduced values in the field.
pub open spec fn field_add(a: nat, b: nat) -> nat {
    (a + b) % modulus()
}

/// The difference of two reduced values in the field.
pub open spec fn field_sub(a: nat, b: nat) -> nat {
    ((a - b) % (modulus() as int)) as nat
}

/// The values of a sequence of field elements.
pub open spec fn values(elements: Seq<Fp>) -> Seq<nat> {
    Seq::new(elements.len(), |i: int| elements[i]@)
}

/// An element of the field, always reduced: its value is below `modulus()`.
#[derive(Clone, Copy, Debug, PartialEq, Eq, Structural)]
pub struct Fp {
    l0: u64,
    l1: u64,
    l2: u64,
    l3: u64,
}

impl View for Fp {
    type V = nat;

    closed spec fn view(&self) -> nat {
        limbs_value(self.l0, self.l1, self.l2, self.l3)
    }
}

impl Fp {
    /// Whether the element is reduced. Every executable value is.
    #[verifier::type_invariant]
    pub open spec fn is_canonical(&self) -> bool {
        self@ < modulus()
    }

    /// The element whose limbs are given, if they are reduced.
    pub fn from_limbs(limbs: [u64; 4]) -> (r: Option<Fp>)
        ensures
            r is Some <==> limbs_nat(limbs) < modulus(),
            r matches Some(x) ==> x@ == limbs_nat(limbs),
    {
        if below_modulus(limbs[0], limbs[1], limbs[2], limbs[3]) {
            Some(Fp { l0: limbs[0], l1: limbs[1], l2: limbs[2], l3: limbs[3] })
        } else {
            None
        }
    }

    /// The four little-endian limbs of the element.
    pub fn to_limbs(&self) -> (limbs: [u64; 4])
        ensures
            limbs_nat(limbs) == self@,
            limbs_nat(limbs) < modulus(),
    {
        proof {
            use_type_invariant(self);
        }
        [self.l0, self.l1, self.l2, self.l3]
    }

    /// The sum of two elements.
    pub fn add(&self, rhs: &Fp) -> (r: Fp)
        ensures
            r@ == field_add(self@, rhs@),
    {
        proof {
            use_type_invariant(self);
            use_type_invariant(rhs);
        }
        let (s0, c0) = add_carry(self.l0, rhs.l0, 0);
        let (s1, c1) = add_carry(self.l1, rhs.l1, c0);
        let (s2, c2) = add_carry(self.l2, rhs.l2, c1);
        let (s3, _) = add_carry(self.l3, rhs.l3, c2);
        let ghost sum = self@ + rhs@;
        if below_modulus(s0, s1, s2, s3) {
            proof {
                lemma_small_mod(sum as nat, modulus());
            }
            Fp { l0: s0, l1: s1, l2: s2, l3: s3 }
        } else {
            let (d0, b0) = sub_borrow(s0, MODULUS_0, 0);
            let (d1, b1) = sub_borrow(s1, MODULUS_1, b0);
            let (d2, b2) = sub_borrow(s2, MODULUS_2, b1);
            let (d3, _) = sub_borrow(s3, MODULUS_3, b2);
            proof {
                lemma_fundamental_div_mod_converse(
                    sum as int,
                    modulus() as int,
                    1,
                    sum - modulus(),
                );
            }
            Fp { l0: d0, l1: d1, l2: d2, l3: d3 }
        }
    }

    /// The difference of two elements.
    pub fn sub(&self, rhs: &Fp) -> (r: Fp)
        ensures
            r@ == field_sub(self@, rhs@),
    {
        proof {
            use_type_invariant(self);
            use_type_invariant(rhs);
        }
        let (d0, b0) = sub_borrow(self.l0, rhs.l0, 0);
        let (d1, b1) = sub_borrow(self.l1, rhs.l1, b0);
        let (d2, b2) = sub_borrow(self.l2, rhs.l2, b1);
        let (d3, b3) = sub_borrow(self.l3, rhs.l3, b2);
        let ghost diff = self@ - rhs@;
        if b3 == 0 {
            proof {
                lemma_small_mod(diff as nat, modulus());
            }
            Fp { l0: d0, l1: d1, l2: d2, l3: d3 }
        } else {
            let (s0, c0) = add_carry(d0, MODULUS_0, 0);
            let (s1, c1) = add_carry(d1, MODULUS_1, c0);
            let (s2, c2) = add_carry(d2, MODULUS_2, c1);
            let (s3, _) = add_carry(d3, MODULUS_3, c2);
            proof {
                lemma_fundamental_div_mod_converse(
                    diff,
                    modulus() as int,
                    -1,
                    diff + modulus(),
                );
            }
            Fp { l0: s0, l1: s1, l2: s2, l3: s3 }
        }
    }

    /// The additive identity.
    pub fn zero() -> (r: Fp)
        ensures
            r@ == 0,
    {
        Fp { l0: 0, l1: 0, l2: 0, l3: 0 }
    }
}

impl From<u64> for Fp {
    /// The element whose value is `value`.
    fn from(value: u64) -> (r: Fp)
        ensures
            r@ == value,
    {
        Fp { l0: value, l1: 0, l2: 0, l3: 0 }
    }
}

impl vstd::std_specs::convert::FromSpecImpl<u64> for Fp {
    open spec fn obeys_from_spec() -> bool {
        true
    }

    closed spec fn from_spec(value: u64) -> Fp {
        Fp { l0: value, l1: 0, l2: 0, l3: 0 }
    }
}

/// Adds two limbs and a carry bit: the low limb of the sum, and the carry out.
fn add_carry(a: u64, b: u64, carry: u64) -> (r: (u64, u64))
    requires
        carry <= 1,
    ensures
        r.0 + r.1 * RADIX == a + b + carry,
        r.1 <= 1,
{
    let total: u128 = a as u128 + b as u128 + carry as u128;
    ((total % RADIX) as u64, (total / RADIX) as u64)
}

/// Subtracts a limb and a borrow bit from a limb: the low limb of the
/// difference, and the borrow out.
fn sub_borrow(a: u64, b: u64, borrow: u64) -> (r: (u64, u64))
    requires
        borrow <= 1,
    ensures
        r.0 - r.1 * RADIX == a - b - borrow,
        r.1 <= 1,
{
    let total: u128 = RADIX + a as u128 - b as u128 - borrow as u128;
    ((total % RADIX) as u64, 1 - (total / RADIX) as u64)
}

/// Whether four limbs stand for an integer below the modulus.
fn below_modulus(l0: u64, l1: u64, l2: u64, l3: u64) -> (r: bool)
    ensures
        r == (limbs_value(l0, l1, l2, l3) < modulus()),
{
    if l3 != MODULUS_3 {
        l3 < MODULUS_3
    } else if l2 != MODULUS_2 {
        l2 < MODULUS_2
    } else if l1 != MODULUS_1 {
        l1 < MODULUS_1
    } else {
        l0 < MODULUS_0
    }
}

/// Each limb can be read back from the value it contributes to.
proof fn lemma_limbs_decompose(l0: u64, l1: u64, l2: u64, l3: u64)
    ensures
        l0 == limbs_value(l0, l1, l2, l3) % 0x1_0000_0000_0000_0000,
        l1 == (limbs_value(l0, l1, l2, l3) / 0x1_0000_0000_0000_0000) % 0x1_0000_0000_0000_0000,
        l2 == (limbs_value(l0, l1, l2, l3) / 0x1_0000_0000_0000_0000 / 0x1_0000_0000_0000_0000)
            % 0x1_0000_0000_0000_0000,
        l3 == limbs_value(l0, l1, l2, l3) / 0x1_0000_0000_0000_0000 / 0x1_0000_0000_0000_0000
            / 0x1_0000_0000_0000_0000,
{
    let b: int = 0x1_0000_0000_0000_0000;
    let v: int = limbs_value(l0, l1, l2, l3) as int;
    let x2: int = l2 + l3 * b;
    let x1: int = l1 + x2 * b;
    assert(x2 * b == l2 * b + l3 * b * b) by (nonlinear_arith)
        requires
            x2 == l2 + l3 * b,
    ;
    assert(x1 * b == l1 * b + x2 * b * b) by (nonlinear_arith)
        requires
            x1 == l1 + x2 * b,
    ;
    assert(x2 * b * b == l2 * b * b + l3 * b * b * b) by (nonlinear_arith)
        requires
            x2 == l2 + l3 * b,
    ;
    assert(v == x1 * b + l0);
    lemma_fundamental_div_mod_converse(v, b, x1, l0 as int);
    lemma_fundamental_div_mod_converse(x1, b, x2, l1 as int);
    lemma_fundamental_div_mod_converse(x2, b, l3 as int, l2 as int);
}

/// Adding a nonzero value to a reduced value changes it.
pub proof fn lemma_add_changes(value: nat, delta: nat)
    requires
        value < modulus(),
        0 < delta < modulus(),
    ensures
        field_add(value, delta) != value,
        field_add(value, delta) < modulus(),
{
    let sum = value + delta;
    if sum < modulus() {
        lemma_small_mod(sum, modulus());
    } else {
        lemma_fundamental_div_mod_converse(sum as int, modulus() as int, 1, sum - modulus());
    }
}

/// Subtracting what was added gives the value back.
pub proof fn lemma_sub_undoes_add(value: nat, delta: nat)
    requires
        value < modulus(),
        delta < modulus(),
    ensures
        field_sub(field_add(value, delta), delta) == value,
{
    let sum = value + delta;
    if sum < modulus() {
        lemma_small_mod(sum, modulus());
        lemma_small_mod(value, modulus());
    } else {
        lemma_fundamental_div_mod_converse(sum as int, modulus() as int, 1, sum - modulus());
        lemma_fundamental_div_mod_converse(
            sum - modulus() - delta,
            modulus() as int,
            -1,
            value as int,
        );
    }
}

/// Two elements with the same value are the same element.
pub proof fn lemma_view_injective(a: Fp, b: Fp)
    ensures
        (a@ == b@) <==> (a == b),
{
    lemma_limbs_decompose(a.l0, a.l1, a.l2, a.l3);
    lemma_limbs_decompose(b.l0, b.l1, b.l2, b.l3);
}

} // verus!
