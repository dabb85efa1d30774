//! Sums, products and differences of sequences of numbers.
use crate::scalar::Scalar;
use vstd::prelude::*;

verus! {

/// The entries of `v` added up from the first to the last, starting at zero.
pub open spec fn sum_of<T: Scalar>(v: Seq<T>) -> T
    decreases v.len(),
{
    if v.len() == 0 {
        T::spec_zero()
    } else {
        sum_of(v.drop_last()).spec_add(v.last())
    }
}

/// Entry by entry, `a[i] * b[i]`.
pub open spec fn products<T: Scalar>(a: Seq<T>, b: Seq<T>) -> Seq<T> {
    Seq::new(a.len(), |i: int| a[i].spec_mul(b[i]))
}

/// The dot product: the sum of the entrywise products.
pub open spec fn dot<T: Scalar>(a: Seq<T>, b: Seq<T>) -> T {
    sum_of(products(a, b))
}

/// Entry by entry, `a[i] - b[i]`.
pub open spec fn differences<T: Scalar>(a: Seq<T>, b: Seq<T>) -> Seq<T> {
    Seq::new(a.len(), |i: int| a[i].spec_sub(b[i]))
}

/// Entry by entry, `c * v[i]`.
pub open spec fn scaled<T: Scalar>(c: T, v: Seq<T>) -> Seq<T> {
    Seq::new(v.len(), |i: int| c.spec_mul(v[i]))
}

/// Extending a sequence by one entry adds that entry to its sum.
pub proof fn lemma_sum_of_push<T: Scalar>(v: Seq<T>, x: T)
    ensures
        sum_of(v.push(x)) == sum_of(v).spec_add(x),
{
    assert(v.push(x).drop_last() =~= v);
}

/// The total of all entries of `v`.
pub fn sum<T: Scalar>(v: &Vec<T>) -> (r: T)
    ensures
        r == sum_of(v@),
{
    let mut acc = T::zero();
    let mut i: usize = 0;
    while i < v.len()
        invariant
            i <= v.len(),
            acc == sum_of(v@.take(i as int)),
        decreases v.len() - i,
    {
        proof {
            lemma_sum_of_push(v@.take(i as int), v@[i as int]);
            assert(v@.take(i + 1) =~= v@.take(i as int).push(v@[i as int]));
        }
        acc = acc.add(v[i]);
        i = i + 1;
    }
    assert(v@.take(v.len() as int) =~= v@);
    acc
}

/// The dot product of two vectors of one length.
pub(crate) fn dot_product<T: Scalar>(a: &Vec<T>, b: &Vec<T>) -> (r: T)
    requires
        a.len() == b.len(),
    ensures
        r == dot(a@, b@),
{
    let mut acc = T::zero();
    let mut i: usize = 0;
    while i < a.len()
        invariant
            i <= a.len(),
            a.len() == b.len(),
            acc == sum_of(products(a@, b@).take(i as int)),
        decreases a.len() - i,
    {
        proof {
            let p = products(a@, b@);
            lemma_sum_of_push(p.take(i as int), p[i as int]);
            assert(p.take(i + 1) =~= p.take(i as int).push(p[i as int]));
        }
        acc = acc.add(a[i].mul(b[i]));
        i = i + 1;
    }
    assert(products(a@, b@).take(a.len() as int) =~= products(a@, b@));
    acc
}

/// Entry by entry, `a - b`, for two vectors of one length.
pub(crate) fn subtract<T: Scalar>(a: &Vec<T>, b: &Vec<T>) -> (r: Vec<T>)
    requires
        a.len() == b.len(),
    ensures
        r@ == differences(a@, b@),
{
    let mut out: Vec<T> = Vec::new();
    let mut i: usize = 0;
    while i < a.len()
        invariant
            i <= a.len(),
            a.len() == b.len(),
            out@ == differences(a@, b@).take(i as int),
        decreases a.len() - i,
    {
        out.push(a[i].sub(b[i]));
        i = i + 1;
        assert(out@ =~= differences(a@, b@).take(i as int));
    }
    assert(differences(a@, b@).take(a.len() as int) =~= differences(a@, b@));
    out
}

/// Every entry of `v` multiplied by `c`, with `c` on the left.
pub(crate) fn scale<T: Scalar>(c: T, v: &Vec<T>) -> (r: Vec<T>)
    ensures
        r@ == scaled(c, v@),
{
    let mut out: Vec<T> = Vec::new();
    let mut i: usize = 0;
    while i < v.len()
        invariant
            i <= v.len(),
            out@ == scaled(c, v@).take(i as int),
        decreases v.len() - i,
    {
        out.push(c.mul(v[i]));
        i = i + 1;
        assert(out@ =~= scaled(c, v@).take(i as int));
    }
    assert(scaled(c, v@).take(v.len() as int) =~= scaled(c, v@));
    out
}

/// A copy of `v`, entry for entry.
pub(crate) fn duplicate<T: Copy>(v: &Vec<T>) -> (r: Vec<T>)
    ensures
        r@ == v@,
{
    let mut out: Vec<T> = Vec::new();
    let mut i: usize = 0;
    while i < v.len()
        invariant
            i <= v.len(),
            out@ == v@.take(i as int),
        decreases v.len() - i,
    {
        out.push(v[i]);
        i = i + 1;
        assert(out@ =~= v@.take(i as int));
    }
    assert(v@.take(v.len() as int) =~= v@);
    out
}

} // verus!
