use vstd::prelude::*;
use rand::XorShiftRng;

verus! {

/// A type whose values can be made from a `usize` count.
pub trait FromUsize: Sized {
    /// The value that `x` is turned into.
    spec fn from_usize_spec(x: usize) -> Self;

    fn from_usize(x: usize) -> (r: Self)
        ensures
            r == Self::from_usize_spec(x),
    ;
}

impl FromUsize for u8 {
    /// The low bits of `x`, read as `u8`.
    open spec fn from_usize_spec(x: usize) -> u8 {
        x as u8
    }

    fn from_usize(x: usize) -> (r: u8) {
        #[verifier::truncate]
        (x as u8)
    }
}

impl FromUsize for u16 {
    /// The low bits of `x`, read as `u16`.
    open spec fn from_usize_spec(x: usize) -> u16 {
        x as u16
    }

    fn from_usize(x: usize) -> (r: u16) {
        #[verifier::truncate]
        (x as u16)
    }
}

impl FromUsize for u32 {
    /// The low bits of `x`, read as `u32`.
    open spec fn from_usize_spec(x: usize) -> u32 {
        x as u32
    }

    fn from_usize(x: usize) -> (r: u32) {
        #[verifier::truncate]
        (x as u32)
    }
}

impl FromUsize for u64 {
    /// The low bits of `x`, read as `u64`.
    open spec fn from_usize_spec(x: usize) -> u64 {
        x as u64
    }

    fn from_usize(x: usize) -> (r: u64) {
        #[verifier::truncate]
        (x as u64)
    }
}

impl FromUsize for i8 {
    /// The low bits of `x`, read as `i8`.
    open spec fn from_usize_spec(x: usize) -> i8 {
        x as i8
    }

    fn from_usize(x: usize) -> (r: i8) {
        #[verifier::truncate]
        (x as i8)
    }
}

impl FromUsize for i16 {
    /// The low bits of `x`, read as `i16`.
    open spec fn from_usize_spec(x: usize) -> i16 {
        x as i16
    }

    fn from_usize(x: usize) -> (r: i16) {
        #[verifier::truncate]
        (x as i16)
    }
}

impl FromUsize for i32 {
    /// The low bits of `x`, read as `i32`.
    open spec fn from_usize_spec(x: usize) -> i32 {
        x as i32
    }

    fn from_usize(x: usize) -> (r: i32) {
        #[verifier::truncate]
        (x as i32)
    }
}

impl FromUsize for i64 {
    /// The low bits of `x`, read as `i64`.
    open spec fn from_usize_spec(x: usize) -> i64 {
        x as i64
    }

    fn from_usize(x: usize) -> (r: i64) {
        #[verifier::truncate]
        (x as i64)
    }
}

/// The generator of `rand`, carried through as an opaque value.
#[verifier::external_type_specification]
#[verifier::external_body]
pub struct ExXorShiftRng(rand::XorShiftRng);

/// `rand::weak_rng` makes a fast generator seeded from the thread's own
/// generator. Nothing is claimed of its state.
#[verifier::external_body]
fn weak_rng() -> XorShiftRng {
    rand::weak_rng()
}

/// `rand::Rng::gen_range` on `usize` draws a value from `[0, high)`. It panics
/// on an empty range, which the precondition leaves out.
#[verifier::external_body]
fn gen_below(rng: &mut XorShiftRng, high: usize) -> (r: usize)
    requires
        0 < high,
    ensures
        r < high,
{
    rand::Rng::gen_range(rng, 0usize, high)
}

/// `x` is made from some count below `count`.
pub open spec fn made_below<T: FromUsize>(x: T, count: usize) -> bool {
    exists|k: usize| k < count && x == #[trigger] T::from_usize_spec(k)
}

/// `v` holds `count` values, each made from some count below `count`.
pub open spec fn drawn_below<T: FromUsize>(v: Seq<T>, count: usize) -> bool {
    &&& v.len() == count
    &&& forall|i: int| 0 <= i < v.len() ==> made_below(#[trigger] v[i], count)
}

/// `count` values, each drawn at random from the counts below `count`.
pub fn random<T: FromUsize>(count: usize) -> (v: Vec<T>)
    ensures
        drawn_below(v@, count),
{
    let mut rng = weak_rng();
    let mut v: Vec<T> = Vec::new();
    while v.len() < count
        invariant
            v@.len() <= count,
            forall|i: int| 0 <= i < v@.len() ==> made_below(#[trigger] v@[i], count),
        decreases count - v@.len(),
    {
        let k = gen_below(&mut rng, count);
        let x = T::from_usize(k);
        v.push(x);
    }
    v
}

/// `count` times the element `elem`: copies of it, with `elem` itself in the
/// last place.
pub fn one_element<T: Clone>(count: usize, elem: T) -> (v: Vec<T>)
    ensures
        v@.len() == count,
        forall|i: int| 0 <= i < count ==> cloned(elem, #[trigger] v@[i]),
        count > 0 ==> v@[count - 1] == elem,
{
    let mut v: Vec<T> = Vec::new();
    if count == 0 {
        return v;
    }
    while v.len() < count - 1
        invariant
            count > 0,
            v@.len() <= count - 1,
            forall|i: int| 0 <= i < v@.len() ==> cloned(elem, #[trigger] v@[i]),
        decreases count - v@.len(),
    {
        v.push(elem.clone());
    }
    v.push(elem);
    v
}

/// The values made from `0, 1, ..., count - 1`, in that order.
pub fn simple_increasing<T: FromUsize>(count: usize) -> (v: Vec<T>)
    ensures
        v@.len() == count,
        forall|i: int| 0 <= i < count ==> #[trigger] v@[i] == T::from_usize_spec(i as usize),
{
    let mut v: Vec<T> = Vec::new();
    let mut i: usize = 0;
    while i < count
        invariant
            i <= count,
            v@.len() == i,
            forall|j: int| 0 <= j < i ==> #[trigger] v@[j] == T::from_usize_spec(j as usize),
        decreases count - i,
    {
        v.push(T::from_usize(i));
        i += 1;
    }
    v
}

/// The values made from `count - 1, ..., 1, 0`, in that order.
pub fn simple_decreasing<T: FromUsize>(count: usize) -> (v: Vec<T>)
    ensures
        v@.len() == count,
        forall|i: int|
            0 <= i < count ==> #[trigger] v@[i] == T::from_usize_spec((count - 1 - i) as usize),
{
    let mut v: Vec<T> = Vec::new();
    let mut i: usize = count;
    while i > 0
        invariant
            i <= count,
            v@.len() == count - i,
            forall|j: int|
                0 <= j < count - i ==> #[trigger] v@[j] == T::from_usize_spec(
                    (count - 1 - j) as usize,
                ),
        decreases i,
    {
        i -= 1;
        v.push(T::from_usize(i));
    }
    v
}

} // verus!
