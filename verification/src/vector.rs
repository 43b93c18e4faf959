use vstd::prelude::*;
use crate::error::Error;
use crate::numeric::{prod, sum, Numeric};

verus! {

/// An ordered sequence of elements: one row or one column of a matrix.
pub struct Vector<T> {
    data: Vec<T>,
}

impl<T> View for Vector<T> {
    type V = Seq<T>;

    closed spec fn view(&self) -> Seq<T> {
        self.data@
    }
}

impl<T> Vector<T> {
    /// Wraps `data` without changing it.
    pub fn new(data: Vec<T>) -> (v: Self)
        ensures
            v@ == data@,
    {
        Self { data }
    }

    /// The number of elements.
    pub fn len(&self) -> (n: usize)
        ensures
            n == self@.len(),
    {
        self.data.len()
    }

    /// The elements, in order.
    pub fn as_slice(&self) -> (s: &[T])
        ensures
            s@ == self@,
    {
        self.data.as_slice()
    }
}

/// The sum of the products `a[k] * b[k]` for `k` below `n`, over the
/// integers.
pub open spec fn sum_of_products<T: Numeric>(a: Seq<T>, b: Seq<T>, n: nat) -> int
    decreases n,
{
    if n == 0 {
        0
    } else {
        sum_of_products(a, b, (n - 1) as nat) + a[n - 1].value() * b[n - 1].value()
    }
}

/// What the reducer holds after `n` steps: starting from the additive
/// identity, the products `a[k] * b[k]` are added one by one from index 0
/// upwards, each step in the arithmetic of `T`.
pub open spec fn dot_upto<T: Numeric>(a: Seq<T>, b: Seq<T>, n: nat) -> T
    decreases n,
{
    if n == 0 {
        T::wrap(0)
    } else {
        sum(dot_upto(a, b, (n - 1) as nat), prod(a[n - 1], b[n - 1]))
    }
}

/// What the reducer computes for two sequences of one length.
pub open spec fn dot_spec<T: Numeric>(a: Seq<T>, b: Seq<T>) -> T {
    dot_upto(a, b, a.len())
}

/// The accumulation in the arithmetic of `T` ends at the integer sum of
/// products folded once into `T`: wrapping at every step loses nothing that
/// wrapping at the end would keep.
pub proof fn lemma_dot_is_wrapped_sum<T: Numeric>(a: Seq<T>, b: Seq<T>, n: nat)
    ensures
        dot_upto(a, b, n) == T::wrap(sum_of_products(a, b, n)),
    decreases n,
{
    if n > 0 {
        lemma_dot_is_wrapped_sum(a, b, (n - 1) as nat);
        let s = sum_of_products(a, b, (n - 1) as nat);
        let p = a[n - 1].value() * b[n - 1].value();
        T::lemma_wrap_sum(p, T::wrap(s).value());
        T::lemma_wrap_sum(s, p);
        assert(T::wrap(s).value() + T::wrap(p).value() == T::wrap(p).value() + T::wrap(s).value());
        assert(T::wrap(p).value() + s == s + T::wrap(p).value());
    }
}

/// Where the integer sum of products fits the element type, the reducer's
/// result stands for exactly that integer.
pub proof fn lemma_dot_exact<T: Numeric>(a: Seq<T>, b: Seq<T>)
    requires
        T::wrap(sum_of_products(a, b, a.len())).value() == sum_of_products(a, b, a.len()),
    ensures
        dot_spec(a, b).value() == sum_of_products(a, b, a.len()),
{
    lemma_dot_is_wrapped_sum(a, b, a.len());
}

/// Multiplies `a` and `b` position by position and adds the products up from
/// index 0, in the arithmetic of `T`. Sequences of different lengths are
/// refused.
pub fn dot_product<T: Numeric>(a: Vector<T>, b: Vector<T>) -> (r: Result<T, Error>)
    ensures
        a@.len() == b@.len() ==> r == Ok::<T, Error>(dot_spec(a@, b@)),
        a@.len() != b@.len() ==> r == Err::<T, Error>(Error::LengthMismatch),
{
    dot_slices(a.as_slice(), b.as_slice())
}

/// The reducer on borrowed elements.
pub fn dot_slices<T: Numeric>(a: &[T], b: &[T]) -> (r: Result<T, Error>)
    ensures
        a@.len() == b@.len() ==> r == Ok::<T, Error>(dot_spec(a@, b@)),
        a@.len() != b@.len() ==> r == Err::<T, Error>(Error::LengthMismatch),
{
    if a.len() != b.len() {
        return Err(Error::LengthMismatch);
    }
    let mut sum = T::zero();
    let mut i: usize = 0;
    while i < a.len()
        invariant
            i <= a@.len(),
            a@.len() == b@.len(),
            sum == dot_upto(a@, b@, i as nat),
        decreases a@.len() - i,
    {
        sum = sum.plus(a[i].times(b[i]));
        i += 1;
    }
    Ok(sum)
}

} // verus!
