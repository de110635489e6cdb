//! Four-valued quad registers (`N`, `F`, `T`, `S`) and their merge rule.
use vstd::prelude::*;

verus! {

/// A quad register; only the low two bits are meaningful.
#[derive(Copy, Clone)]
pub struct QuadReg(u8);

/// The meaning of a quad register: its low two bits.
pub closed spec fn quad_bits(q: QuadReg) -> u8 {
    (q.0 % 4) as u8
}

/// The merge rule: equal values stay, differing values become `S` (3).
pub open spec fn merge_bits(a: u8, b: u8) -> u8 {
    if a == b { a } else { 3 }
}

impl QuadReg {
    /// The register holding the value `b` (0 to 3).
    pub closed spec fn of(b: u8) -> Self {
        QuadReg(b)
    }

    /// The register holding `N`.
    pub fn n() -> (r: Self)
        ensures quad_bits(r) == 0, r.raw() == 0, r == Self::of(0),
    {
        Self(0)
    }

    /// The register holding `F`.
    pub fn f() -> (r: Self)
        ensures quad_bits(r) == 1, r.raw() == 1, r == Self::of(1),
    {
        Self(1)
    }

    /// The register holding `T`.
    pub fn t() -> (r: Self)
        ensures quad_bits(r) == 2, r.raw() == 2, r == Self::of(2),
    {
        Self(2)
    }

    /// The register holding `S`.
    pub fn s() -> (r: Self)
        ensures quad_bits(r) == 3, r.raw() == 3, r == Self::of(3),
    {
        Self(3)
    }

    /// The raw byte held by the register.
    pub closed spec fn raw(self) -> u8 {
        self.0
    }

    pub fn from_bits(bits: u8) -> (r: Self)
        ensures
            quad_bits(r) == bits % 4,
            r.raw() < 4,
    {
        let v = bits & 0b11;
        assert(bits & 3 == bits % 4) by (bit_vector);
        Self(v)
    }

    pub fn bits(self) -> (r: u8)
        ensures
            r == quad_bits(self),
            r < 4,
    {
        let v = self.0;
        assert(v & 3 == v % 4) by (bit_vector);
        v & 0b11
    }

    /// The register that merging `a` with `b` yields.
    pub closed spec fn spec_merge(a: Self, b: Self) -> Self {
        if quad_bits(a) == quad_bits(b) { a } else { QuadReg(3) }
    }

    pub fn merge(self, other: Self) -> (r: Self)
        ensures
            r == Self::spec_merge(self, other),
            quad_bits(r) == merge_bits(quad_bits(self), quad_bits(other)),
            quad_bits(self) == quad_bits(other) ==> r == self,
    {
        if self.bits() == other.bits() {
            self
        } else {
            Self::s()
        }
    }
}

/// The meaning of a merged register follows the merge rule.
pub proof fn lemma_spec_merge_bits(a: QuadReg, b: QuadReg)
    ensures
        quad_bits(QuadReg::spec_merge(a, b)) == merge_bits(quad_bits(a), quad_bits(b)),
{
}

/// Merging is commutative.
pub proof fn lemma_merge_commutative(a: u8, b: u8)
    ensures
        merge_bits(a, b) == merge_bits(b, a),
{
}

/// Merging is associative.
pub proof fn lemma_merge_associative(a: u8, b: u8, c: u8)
    requires
        a < 4,
        b < 4,
        c < 4,
    ensures
        merge_bits(merge_bits(a, b), c) == merge_bits(a, merge_bits(b, c)),
{
}

/// Merging a value with itself gives it back, and `S` absorbs everything.
pub proof fn lemma_merge_idempotent_and_absorbing(a: u8)
    ensures
        merge_bits(a, a) == a,
        merge_bits(a, 3) == 3,
        merge_bits(3, a) == 3,
{
}

/// The register of a value holds that value.
pub proof fn lemma_of_bits(b: u8)
    requires
        b < 4,
    ensures
        quad_bits(QuadReg::of(b)) == b,
{
}

/// A register's meaning is always one of the four values, and
/// `from_bits` applied to it gives a register with the same meaning.
pub proof fn lemma_quad_bits_range(q: QuadReg)
    ensures
        quad_bits(q) < 4,
        quad_bits(q) % 4 == quad_bits(q),
{
}

} // verus!
