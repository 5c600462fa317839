use vstd::prelude::*;

verus! {

/// The prime modulus of the field: the largest prime below 2^64.
pub const MODULUS: u64 = 18446744073709551557;

/// Sum of two field values.
pub open spec fn fe_add(a: nat, b: nat) -> nat {
    (a + b) % (MODULUS as nat)
}

/// Product of two field values.
pub open spec fn fe_mul(a: nat, b: nat) -> nat {
    (a * b) % (MODULUS as nat)
}

/// Difference of two field values.
pub open spec fn fe_sub(a: nat, b: nat) -> nat {
    ((a as int - b as int) % (MODULUS as int)) as nat
}

/// The S-box: the fifth power in the field.
pub open spec fn fe_pow5(a: nat) -> nat {
    (a * a * a * a * a) % (MODULUS as nat)
}

/// An element of the prime field: an integer below `MODULUS`.
#[derive(Clone, Copy, Debug, PartialEq, Eq)]
pub struct FieldElement {
    value: u64,
}

impl View for FieldElement {
    type V = nat;

    closed spec fn view(&self) -> nat {
        self.value as nat
    }
}

impl FieldElement {
    /// The element is reduced below the modulus.
    pub open spec fn wf(&self) -> bool {
        self@ < MODULUS as nat
    }

    /// The element of the field that `value` stands for, reduced modulo `MODULUS`.
    pub fn new(value: u64) -> (r: Self)
        ensures
            r@ == value as nat % (MODULUS as nat),
            r.wf(),
    {
        FieldElement { value: value % MODULUS }
    }

    /// The integer below `MODULUS` that the element holds.
    pub fn value(&self) -> (r: u64)
        ensures
            r as nat == self@,
    {
        self.value
    }

    /// The sum of two elements in the field.
    pub fn add(self, other: Self) -> (r: Self)
        requires
            self.wf(),
            other.wf(),
        ensures
            r@ == fe_add(self@, other@),
            r.wf(),
    {
        let sum: u128 = self.value as u128 + other.value as u128;
        FieldElement { value: (sum % (MODULUS as u128)) as u64 }
    }

    /// The difference of two elements in the field.
    pub fn sub(self, other: Self) -> (r: Self)
        requires
            self.wf(),
            other.wf(),
        ensures
            r@ == fe_sub(self@, other@),
            r.wf(),
    {
        if self.value >= other.value {
            let d: u64 = self.value - other.value;
            assert((d as int) % (MODULUS as int) == d as int) by (nonlinear_arith)
                requires d < MODULUS;
            FieldElement { value: d }
        } else {
            let d: u64 = MODULUS - (other.value - self.value);
            assert(((self.value as int - other.value as int) % (MODULUS as int)) == d as int)
                by (nonlinear_arith)
                requires
                    self.value < other.value,
                    other.value < MODULUS,
                    d == MODULUS - (other.value - self.value),
            {
                vstd::arithmetic::div_mod::lemma_fundamental_div_mod_converse(
                    self.value as int - other.value as int,
                    MODULUS as int,
                    -1,
                    d as int,
                );
            }
            FieldElement { value: d }
        }
    }

    /// The product of two elements in the field.
    pub fn mul(self, other: Self) -> (r: Self)
        requires
            self.wf(),
            other.wf(),
        ensures
            r@ == fe_mul(self@, other@),
            r.wf(),
    {
        let a: u128 = self.value as u128;
        let b: u128 = other.value as u128;
        assert(a * b < 0x1_0000_0000_0000_0000_0000_0000_0000_0000) by (nonlinear_arith)
            requires a < 0x1_0000_0000_0000_0000, b < 0x1_0000_0000_0000_0000;
        let prod: u128 = a * b;
        FieldElement { value: (prod % (MODULUS as u128)) as u64 }
    }

    /// The S-box: the element raised to the fifth power.
    pub fn sbox(&self) -> (r: Self)
        requires
            self.wf(),
        ensures
            r@ == fe_pow5(self@),
            r.wf(),
    {
        let x2 = self.mul(*self);
        let x3 = x2.mul(*self);
        let x4 = x3.mul(*self);
        let x5 = x4.mul(*self);
        proof {
            let a = self@ as int;
            let m = MODULUS as int;
            vstd::arithmetic::div_mod::lemma_mul_mod_noop_left(a * a, a, m);
            vstd::arithmetic::div_mod::lemma_mul_mod_noop_left(a * a * a, a, m);
            vstd::arithmetic::div_mod::lemma_mul_mod_noop_left(a * a * a * a, a, m);
        }
        x5
    }

    /// The simplified inverse map of the S-box: zero stays zero, every other
    /// element goes to one.
    pub fn inverse_sbox(&self) -> (r: Self)
        ensures
            r@ == (if self@ == 0 { 0nat } else { 1nat }),
            r.wf(),
    {
        if self.value == 0 {
            FieldElement { value: 0 }
        } else {
            FieldElement { value: 1 }
        }
    }
}

} // verus!
