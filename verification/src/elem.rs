use rand::RngExt;
use vstd::prelude::*;

verus! {

/// A type that can serve as a matrix element: it has a zero, equality,
/// and wrapping-style addition, subtraction and multiplication, each of
/// which is pinned to a spec-level function.  Overflow wraps silently,
/// mirroring the silent propagation the algebra allows.
pub trait MatElem: Sized + Copy + PartialEq {
    /// The additive identity, used as the starting accumulator of a
    /// matrix product and as the fill of `default_with_size`.
    spec fn zero_spec() -> Self;

    spec fn add_spec(self, other: Self) -> Self;

    spec fn sub_spec(self, other: Self) -> Self;

    spec fn mul_spec(self, other: Self) -> Self;

    fn zero_elem() -> (r: Self)
        ensures
            r == Self::zero_spec(),
    ;

    fn add_elem(self, other: Self) -> (r: Self)
        ensures
            r == self.add_spec(other),
    ;

    fn sub_elem(self, other: Self) -> (r: Self)
        ensures
            r == self.sub_spec(other),
    ;

    fn mul_elem(self, other: Self) -> (r: Self)
        ensures
            r == self.mul_spec(other),
    ;

    /// Addition of elements is commutative; matrix addition inherits
    /// commutativity from this law.
    proof fn lemma_add_comm(a: Self, b: Self)
        ensures
            a.add_spec(b) == b.add_spec(a),
    ;

    /// Subtracting in the opposite order negates the difference, where
    /// the negation of `x` is `zero - x`; the matrix-level law about
    /// `sub` in both orders inherits from this one.
    proof fn lemma_sub_neg(a: Self, b: Self)
        ensures
            a.sub_spec(b) == Self::zero_spec().sub_spec(b.sub_spec(a)),
    ;
}

/// A matrix element that can also be drawn from the type's default
/// random distribution; only random initialization needs it.
pub trait RandomElem: MatElem {
    fn random_elem() -> Self;
}

impl MatElem for i64 {
    open spec fn zero_spec() -> i64 {
        0i64
    }

    open spec fn add_spec(self, other: i64) -> i64 {
        self.wrapping_add(other)
    }

    open spec fn sub_spec(self, other: i64) -> i64 {
        self.wrapping_sub(other)
    }

    open spec fn mul_spec(self, other: i64) -> i64 {
        self.wrapping_mul(other)
    }

    fn zero_elem() -> (r: i64) {
        0i64
    }

    fn add_elem(self, other: i64) -> (r: i64) {
        self.wrapping_add(other)
    }

    fn sub_elem(self, other: i64) -> (r: i64) {
        self.wrapping_sub(other)
    }

    fn mul_elem(self, other: i64) -> (r: i64) {
        self.wrapping_mul(other)
    }

    proof fn lemma_add_comm(a: i64, b: i64) {
    }

    proof fn lemma_sub_neg(a: i64, b: i64) {
    }
}

/// A fixed-point number with sixteen fractional bits: the value
/// represented is `raw / 65536`.  Sums and differences wrap; a product
/// is the wrapped raw product shifted right, which is exact whenever
/// the raw product fits in the carrier.  It stands in wherever the
/// algebra needs fractional scalars, such as a fractional learning
/// rate.
#[derive(Clone, Copy, Debug, PartialEq, Eq, Structural)]
pub struct Fixed {
    pub raw: i64,
}

/// The number of raw units per whole unit of a `Fixed` value.
pub const FIXED_ONE: i64 = 65536;

impl Fixed {
    /// The fixed-point number holding exactly the integer `v`.
    pub fn from_int(v: i32) -> (r: Fixed)
        ensures
            r.raw == v * 65536,
    {
        Fixed { raw: (v as i64) * 65536 }
    }
}

impl MatElem for Fixed {
    open spec fn zero_spec() -> Fixed {
        Fixed { raw: 0i64 }
    }

    open spec fn add_spec(self, other: Fixed) -> Fixed {
        Fixed { raw: self.raw.wrapping_add(other.raw) }
    }

    open spec fn sub_spec(self, other: Fixed) -> Fixed {
        Fixed { raw: self.raw.wrapping_sub(other.raw) }
    }

    open spec fn mul_spec(self, other: Fixed) -> Fixed {
        Fixed { raw: self.raw.wrapping_mul(other.raw).wrapping_shr(16) }
    }

    fn zero_elem() -> (r: Fixed) {
        Fixed { raw: 0i64 }
    }

    fn add_elem(self, other: Fixed) -> (r: Fixed) {
        Fixed { raw: self.raw.wrapping_add(other.raw) }
    }

    fn sub_elem(self, other: Fixed) -> (r: Fixed) {
        Fixed { raw: self.raw.wrapping_sub(other.raw) }
    }

    fn mul_elem(self, other: Fixed) -> (r: Fixed) {
        Fixed { raw: self.raw.wrapping_mul(other.raw).wrapping_shr(16) }
    }

    proof fn lemma_add_comm(a: Fixed, b: Fixed) {
    }

    proof fn lemma_sub_neg(a: Fixed, b: Fixed) {
    }
}

/// Relies on rand::rng and rand::RngExt::random: draws an i64 from the
/// standard uniform distribution; nothing is promised of the value.
#[verifier::external_body]
fn random_i64() -> i64 {
    rand::rng().random()
}

/// Relies on rand::rng and rand::RngExt::random: draws a u16 from the
/// standard uniform distribution; nothing is promised of the value
/// beyond its type's range.
#[verifier::external_body]
fn random_u16() -> u16 {
    rand::rng().random()
}

impl RandomElem for i64 {
    fn random_elem() -> i64 {
        random_i64()
    }
}

impl RandomElem for Fixed {
    /// A random `Fixed` lies in the unit interval: its raw part is a
    /// random sixteen-bit quantity, so the value is in `[0, 1)`.
    fn random_elem() -> Fixed {
        Fixed { raw: random_u16() as i64 }
    }
}

} // verus!
