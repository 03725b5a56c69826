use vstd::prelude::*;
use vstd::laws_cmp::{
    obeys_cmp, obeys_cmp_ord, obeys_cmp_partial_ord, obeys_partial_cmp_spec_properties,
};
use vstd::laws_eq::obeys_eq_spec_properties;
use vstd::std_specs::cmp::{OrdSpec, PartialEqSpec, PartialOrdSpec};
use core::cmp::Ordering;

verus! {

/// The comparison operators of `T` behave as a total order.
pub open spec fn total_order<T: Ord>() -> bool {
    obeys_cmp::<T>()
}

/// `a` is less than or equal to `b` under the element ordering.
pub open spec fn le<T: Ord>(a: T, b: T) -> bool {
    a.partial_cmp_spec(&b) matches Some(Ordering::Less | Ordering::Equal)
}

/// `a` is strictly greater than `b` under the element ordering.
pub open spec fn gt<T: Ord>(a: T, b: T) -> bool {
    a.partial_cmp_spec(&b) == Some(Ordering::Greater)
}

/// `a` is strictly less than `b` under the element ordering.
pub open spec fn lt<T: Ord>(a: T, b: T) -> bool {
    a.partial_cmp_spec(&b) == Some(Ordering::Less)
}

/// `a` and `b` are equal under the element ordering.
pub open spec fn equiv<T: Ord>(a: T, b: T) -> bool {
    a.partial_cmp_spec(&b) == Some(Ordering::Equal)
}

/// The operator `==` of `T` computes `same`.
pub open spec fn decides_same<T: PartialEq>() -> bool {
    T::obeys_eq_spec()
}

/// `a` and `b` are equal under `==`.
pub open spec fn same<T: PartialEq>(a: T, b: T) -> bool {
    a.eq_spec(&b)
}

/// Any two elements are comparable: exactly one of `a <= b` and `a > b` holds,
/// and the operators `<=` and `>` compute them.
pub proof fn lemma_comparable<T: Ord>(a: T, b: T)
    requires
        total_order::<T>(),
    ensures
        T::obeys_partial_cmp_spec(),
        le(a, b) != gt(a, b),
{
    reveal(obeys_cmp_partial_ord);
    reveal(obeys_cmp_ord);
    assert(a.partial_cmp_spec(&b) == Some(a.cmp_spec(&b)));
}

/// Every element is less than or equal to itself, and not greater.
pub proof fn lemma_reflexive<T: Ord>(a: T)
    requires
        total_order::<T>(),
    ensures
        le(a, a),
        equiv(a, a),
        !gt(a, a),
{
    reveal(obeys_partial_cmp_spec_properties);
    lemma_comparable(a, a);
    assert(a.partial_cmp_spec(&a) == Some(Ordering::Less) <==> a.partial_cmp_spec(&a) == Some(
        Ordering::Greater,
    ));
}

/// `a > b` exactly when `b < a`.
pub proof fn lemma_flip<T: Ord>(a: T, b: T)
    requires
        total_order::<T>(),
    ensures
        gt(a, b) <==> lt(b, a),
        equiv(a, b) <==> equiv(b, a),
{
    reveal(obeys_partial_cmp_spec_properties);
    reveal(obeys_eq_spec_properties);
    lemma_comparable(a, b);
    lemma_comparable(b, a);
    assert(b.partial_cmp_spec(&a) == Some(Ordering::Less) <==> a.partial_cmp_spec(&b) == Some(
        Ordering::Greater,
    ));
    assert(a.partial_cmp_spec(&b) == Some(Ordering::Equal) <==> a.eq_spec(&b));
    assert(b.partial_cmp_spec(&a) == Some(Ordering::Equal) <==> b.eq_spec(&a));
    assert(a.eq_spec(&b) <==> b.eq_spec(&a));
}

/// `<=` is transitive.
pub proof fn lemma_le_transitive<T: Ord>(a: T, b: T, c: T)
    requires
        total_order::<T>(),
        le(a, b),
        le(b, c),
    ensures
        le(a, c),
{
    reveal(obeys_partial_cmp_spec_properties);
    reveal(obeys_eq_spec_properties);
    lemma_comparable(a, c);
    lemma_comparable(a, b);
    lemma_comparable(b, c);
    lemma_comparable(c, b);
    lemma_comparable(b, a);
    lemma_flip(a, c);
    lemma_flip(b, c);
    lemma_flip(a, b);
    if gt(a, c) {
        let less = Some(Ordering::Less);
        let equal = Some(Ordering::Equal);
        assert(c.partial_cmp_spec(&a) == less);
        if a.partial_cmp_spec(&b) == less {
            if b.partial_cmp_spec(&c) == less {
                assert(a.partial_cmp_spec(&c) == less);
            } else {
                assert(c.partial_cmp_spec(&b) == equal);
                assert(c.partial_cmp_spec(&b) == less);
            }
        } else {
            assert(b.partial_cmp_spec(&a) == equal);
            if b.partial_cmp_spec(&c) == less {
                assert(b.partial_cmp_spec(&a) == less);
            } else {
                assert(a.eq_spec(&b) && b.eq_spec(&c));
                assert(a.eq_spec(&c));
                assert(a.partial_cmp_spec(&c) == equal);
            }
        }
    }
}

/// An element that is at most the pivot is at most every element that is
/// greater than the pivot.
pub proof fn lemma_le_below_gt<T: Ord>(a: T, p: T, b: T)
    requires
        total_order::<T>(),
        le(a, p),
        gt(b, p),
    ensures
        le(a, b),
{
    lemma_comparable(b, p);
    lemma_comparable(p, b);
    lemma_flip(b, p);
    assert(le(p, b));
    lemma_le_transitive(a, p, b);
}

/// Two elements that are each at most the other are equal under the ordering.
pub proof fn lemma_antisymmetric<T: Ord>(a: T, b: T)
    requires
        total_order::<T>(),
        le(a, b),
        le(b, a),
    ensures
        equiv(a, b),
{
    lemma_comparable(a, b);
    lemma_comparable(b, a);
    lemma_flip(b, a);
}

/// Under a total order, elements are equal under the ordering exactly when
/// `==` holds them equal, and `==` is decided.
pub proof fn lemma_equiv_is_same<T: Ord>(a: T, b: T)
    requires
        total_order::<T>(),
    ensures
        decides_same::<T>(),
        equiv(a, b) <==> same(a, b),
{
    reveal(obeys_cmp_partial_ord);
    reveal(obeys_partial_cmp_spec_properties);
    assert(a.partial_cmp_spec(&b) == Some(Ordering::Equal) <==> a.eq_spec(&b));
}

/// The unsigned and signed integers of 8 to 64 bits are totally ordered, so
/// sequences of them can be sorted.
pub proof fn lemma_integers_totally_ordered()
    ensures
        total_order::<u8>(),
        total_order::<u16>(),
        total_order::<u32>(),
        total_order::<u64>(),
        total_order::<i8>(),
        total_order::<i16>(),
        total_order::<i32>(),
        total_order::<i64>(),
{
    broadcast use vstd::laws_cmp::group_laws_cmp;

}

} // verus!
