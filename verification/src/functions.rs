use vstd::prelude::*;

verus! {

/// An activation: a unary numeric function together with its
/// derivative, applied element-wise by the network.  The pair is
/// supplied from outside and never mutated.
pub struct ActivationFn<F, D> {
    pub f: F,
    pub f_prime: D,
}

/// A loss: a binary numeric function of prediction and truth together
/// with its derivative, applied element-wise by the network.
pub struct LossFn<F, D> {
    pub f: F,
    pub f_prime: D,
}

/// The unary function may be called on every element value.
pub open spec fn unary_total<T, F: Fn(T) -> T>(f: F) -> bool {
    forall|x: T| #[trigger] call_requires(f, (x,))
}

/// The binary function may be called on every pair of element values.
pub open spec fn binary_total<T, F: Fn(T, T) -> T>(f: F) -> bool {
    forall|x: T, y: T| #[trigger] call_requires(f, (x, y))
}

/// Sequence `b` is a possible image of sequence `a` under the unary
/// function `f`, element by element.
pub open spec fn maps_to<T, F: Fn(T) -> T>(f: F, a: Seq<T>, b: Seq<T>) -> bool {
    &&& b.len() == a.len()
    &&& forall|k: int| 0 <= k < a.len() ==> call_ensures(f, (a[k],), #[trigger] b[k])
}

/// Sequence `c` is a possible image of the zip of `a` and `b` under
/// the binary function `f`, element by element.
pub open spec fn zips_to<T, F: Fn(T, T) -> T>(f: F, a: Seq<T>, b: Seq<T>, c: Seq<T>) -> bool {
    &&& c.len() == a.len()
    &&& forall|k: int| 0 <= k < a.len() ==> call_ensures(f, (a[k], b[k]), #[trigger] c[k])
}

} // verus!
