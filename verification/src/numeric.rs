use vstd::prelude::*;

verus! {

/// The scalar type in which the database stores coordinates, sizes and areas.
///
/// The placement database is meant to be used with a floating-point type
/// (`f32` or `f64`).  Every operation the database performs on a scalar goes
/// through one of the methods below; the contract of each method only says
/// that its result is the value of the matching specification function on
/// its arguments, i.e. that the operation is a function of its arguments.
/// No algebraic law (such as associativity) is assumed, since rounding
/// arithmetic does not obey them.
///
/// The conversions from `i32` and `usize` are total: every value of these
/// types has a (possibly rounded) representation in a floating-point type.
pub trait Numeric: Sized + Copy {
    spec fn zero_spec() -> Self;

    spec fn one_spec() -> Self;

    spec fn add_spec(self, rhs: Self) -> Self;

    spec fn sub_spec(self, rhs: Self) -> Self;

    spec fn mul_spec(self, rhs: Self) -> Self;

    spec fn div_spec(self, rhs: Self) -> Self;

    /// `self <= rhs` in the order of the scalar type (false when either side is NaN).
    spec fn le_spec(self, rhs: Self) -> bool;

    spec fn from_i32_spec(v: i32) -> Self;

    spec fn from_usize_spec(v: usize) -> Self;

    /// Conversion towards zero to an integer, as `value as i32` does.
    spec fn trunc_i32_spec(self) -> i32;

    fn zero() -> (r: Self)
        ensures
            r == Self::zero_spec(),
    ;

    fn one() -> (r: Self)
        ensures
            r == Self::one_spec(),
    ;

    fn add(self, rhs: Self) -> (r: Self)
        ensures
            r == self.add_spec(rhs),
    ;

    fn sub(self, rhs: Self) -> (r: Self)
        ensures
            r == self.sub_spec(rhs),
    ;

    fn mul(self, rhs: Self) -> (r: Self)
        ensures
            r == self.mul_spec(rhs),
    ;

    fn div(self, rhs: Self) -> (r: Self)
        ensures
            r == self.div_spec(rhs),
    ;

    fn le(self, rhs: Self) -> (r: bool)
        ensures
            r == self.le_spec(rhs),
    ;

    fn from_i32(v: i32) -> (r: Self)
        ensures
            r == Self::from_i32_spec(v),
    ;

    fn from_usize(v: usize) -> (r: Self)
        ensures
            r == Self::from_usize_spec(v),
    ;

    fn trunc_i32(self) -> (r: i32)
        ensures
            r == self.trunc_i32_spec(),
    ;
}

/// Left-to-right sum of a sequence of scalars, starting from zero:
/// `((0 + s[0]) + s[1]) + ...`.
pub open spec fn sum_seq<T: Numeric>(s: Seq<T>) -> T
    decreases s.len(),
{
    if s.len() == 0 {
        T::zero_spec()
    } else {
        sum_seq(s.drop_last()).add_spec(s.last())
    }
}

} // verus!
