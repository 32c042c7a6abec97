use vstd::prelude::*;

use crate::numeric::Numeric;

verus! {

/// Coordinates kept column-wise: the `i`-th point is `(x[i], y[i])`.
#[derive(Debug, Clone, Default)]
pub struct VecCoords<T: Numeric> {
    pub x: Vec<T>,
    pub y: Vec<T>,
}

impl<T: Numeric> VecCoords<T> {
    /// Both columns have the same length.
    pub open spec fn wf(&self) -> bool {
        self.x.len() == self.y.len()
    }

    pub fn new(x: Vec<T>, y: Vec<T>) -> (r: Self)
        ensures
            r.x@ == x@,
            r.y@ == y@,
    {
        Self { x, y }
    }

    pub fn push(&mut self, x: T, y: T)
        ensures
            final(self).x@ == old(self).x@.push(x),
            final(self).y@ == old(self).y@.push(y),
    {
        self.x.push(x);
        self.y.push(y);
    }

    /// `num` points, all at the origin.
    pub fn new_zero(num: usize) -> (r: Self)
        ensures
            r.x@ == Seq::new(num as nat, |i: int| T::zero_spec()),
            r.y@ == Seq::new(num as nat, |i: int| T::zero_spec()),
    {
        let zero = T::zero();
        let mut x: Vec<T> = Vec::new();
        let mut y: Vec<T> = Vec::new();
        let mut i: usize = 0;
        while i < num
            invariant
                i <= num,
                zero == T::zero_spec(),
                x@ == Seq::new(i as nat, |k: int| T::zero_spec()),
                y@ == Seq::new(i as nat, |k: int| T::zero_spec()),
            decreases num - i,
        {
            x.push(zero);
            y.push(zero);
            i = i + 1;
        }
        Self { x, y }
    }

    /// Number of points.
    pub fn len(&self) -> (r: usize)
        requires
            self.wf(),
        ensures
            r == self.x.len(),
            r == self.y.len(),
    {
        self.x.len()
    }

    pub fn is_empty(&self) -> (r: bool)
        requires
            self.wf(),
        ensures
            r == (self.x.len() == 0),
    {
        self.len() == 0
    }

    /// A cursor over the points, first to last.
    pub fn iter(&self) -> (r: VecCoordsIter<'_, T>)
        requires
            self.wf(),
        ensures
            r.first_column() == self.x@,
            r.second_column() == self.y@,
            r.position() == 0,
    {
        VecCoordsIter { x: &self.x, y: &self.y, pos: 0 }
    }

    /// A cursor over the points, first to last, through which they can be
    /// changed.
    pub fn iter_mut(&mut self) -> (r: VecCoordsIterMut<'_, T>)
        requires
            old(self).wf(),
        ensures
            r.first_rest()@ == old(self).x@,
            r.second_rest()@ == old(self).y@,
            final(self).x@ == final(r.first_rest())@,
            final(self).y@ == final(r.second_rest())@,
    {
        VecCoordsIterMut { x: self.x.as_mut_slice(), y: self.y.as_mut_slice() }
    }
}

/// Cursor over the points of a [`VecCoords`], yielding `(&x[i], &y[i])`.
#[derive(Debug)]
pub struct VecCoordsIter<'a, T> {
    x: &'a Vec<T>,
    y: &'a Vec<T>,
    pos: usize,
}

impl<'a, T> VecCoordsIter<'a, T> {
    #[verifier::type_invariant]
    spec fn inv(&self) -> bool {
        &&& self.x.len() == self.y.len()
        &&& self.pos <= self.x.len()
    }

    pub closed spec fn first_column(&self) -> Seq<T> {
        self.x@
    }

    pub closed spec fn second_column(&self) -> Seq<T> {
        self.y@
    }

    /// Index of the next point to be yielded.
    pub closed spec fn position(&self) -> nat {
        self.pos as nat
    }

    /// Yields the next point, or `None` once all points were yielded.
    pub fn next(&mut self) -> (r: Option<(&'a T, &'a T)>)
        ensures
            final(self).first_column() == old(self).first_column(),
            final(self).second_column() == old(self).second_column(),
            old(self).position() < old(self).first_column().len() ==> {
                &&& r == Some((&old(self).first_column()[old(self).position() as int],
                    &old(self).second_column()[old(self).position() as int]))
                &&& final(self).position() == old(self).position() + 1
            },
            old(self).position() >= old(self).first_column().len() ==> {
                &&& r is None
                &&& final(self).position() == old(self).position()
            },
    {
        proof {
            use_type_invariant(&*self);
        }
        let x: &'a Vec<T> = self.x;
        let y: &'a Vec<T> = self.y;
        if self.pos < x.len() {
            let i = self.pos;
            self.pos = i + 1;
            Some((&x[i], &y[i]))
        } else {
            None
        }
    }

    /// Number of points left, as a lower and an exact upper bound.
    pub fn size_hint(&self) -> (r: (usize, Option<usize>))
        ensures
            r.0 == self.first_column().len() - self.position(),
            r.1 == Some(r.0),
    {
        proof {
            use_type_invariant(self);
        }
        let n = self.x.len() - self.pos;
        (n, Some(n))
    }
}

/// Sizes kept column-wise: the `i`-th size is `(w[i], h[i])`.
#[derive(Debug, Default)]
pub struct VecSizes<T> {
    pub w: Vec<T>,
    pub h: Vec<T>,
}

impl<T> VecSizes<T> {
    /// Both columns have the same length.
    pub open spec fn wf(&self) -> bool {
        self.w.len() == self.h.len()
    }

    pub fn new(w: Vec<T>, h: Vec<T>) -> (r: Self)
        ensures
            r.w@ == w@,
            r.h@ == h@,
    {
        Self { w, h }
    }

    pub fn push(&mut self, w: T, h: T)
        ensures
            final(self).w@ == old(self).w@.push(w),
            final(self).h@ == old(self).h@.push(h),
    {
        self.w.push(w);
        self.h.push(h);
    }

    /// Number of sizes.
    pub fn len(&self) -> (r: usize)
        requires
            self.wf(),
        ensures
            r == self.w.len(),
            r == self.h.len(),
    {
        self.w.len()
    }

    pub fn is_empty(&self) -> (r: bool)
        requires
            self.wf(),
        ensures
            r == (self.w.len() == 0),
    {
        self.len() == 0
    }

    /// A cursor over the sizes, first to last.
    pub fn iter(&self) -> (r: VecSizesIter<'_, T>)
        requires
            self.wf(),
        ensures
            r.first_column() == self.w@,
            r.second_column() == self.h@,
            r.position() == 0,
    {
        VecSizesIter { w: &self.w, h: &self.h, pos: 0 }
    }

    /// A cursor over the sizes, first to last, through which they can be
    /// changed.
    pub fn iter_mut(&mut self) -> (r: VecSizesIterMut<'_, T>)
        requires
            old(self).wf(),
        ensures
            r.first_rest()@ == old(self).w@,
            r.second_rest()@ == old(self).h@,
            final(self).w@ == final(r.first_rest())@,
            final(self).h@ == final(r.second_rest())@,
    {
        VecSizesIterMut { w: self.w.as_mut_slice(), h: self.h.as_mut_slice() }
    }
}

/// Cursor over the sizes of a [`VecSizes`], yielding `(&w[i], &h[i])`.
#[derive(Debug)]
pub struct VecSizesIter<'a, T> {
    w: &'a Vec<T>,
    h: &'a Vec<T>,
    pos: usize,
}

impl<'a, T> VecSizesIter<'a, T> {
    #[verifier::type_invariant]
    spec fn inv(&self) -> bool {
        &&& self.w.len() == self.h.len()
        &&& self.pos <= self.w.len()
    }

    pub closed spec fn first_column(&self) -> Seq<T> {
        self.w@
    }

    pub closed spec fn second_column(&self) -> Seq<T> {
        self.h@
    }

    /// Index of the next size to be yielded.
    pub closed spec fn position(&self) -> nat {
        self.pos as nat
    }

    /// Yields the next size, or `None` once all sizes were yielded.
    pub fn next(&mut self) -> (r: Option<(&'a T, &'a T)>)
        ensures
            final(self).first_column() == old(self).first_column(),
            final(self).second_column() == old(self).second_column(),
            old(self).position() < old(self).first_column().len() ==> {
                &&& r == Some((&old(self).first_column()[old(self).position() as int],
                    &old(self).second_column()[old(self).position() as int]))
                &&& final(self).position() == old(self).position() + 1
            },
            old(self).position() >= old(self).first_column().len() ==> {
                &&& r is None
                &&& final(self).position() == old(self).position()
            },
    {
        proof {
            use_type_invariant(&*self);
        }
        let w: &'a Vec<T> = self.w;
        let h: &'a Vec<T> = self.h;
        if self.pos < w.len() {
            let i = self.pos;
            self.pos = i + 1;
            Some((&w[i], &h[i]))
        } else {
            None
        }
    }

    /// Number of sizes left, as a lower and an exact upper bound.
    pub fn size_hint(&self) -> (r: (usize, Option<usize>))
        ensures
            r.0 == self.first_column().len() - self.position(),
            r.1 == Some(r.0),
    {
        proof {
            use_type_invariant(self);
        }
        let n = self.w.len() - self.pos;
        (n, Some(n))
    }
}

/// Cursor over the points of a [`VecCoords`], yielding `(&mut x[i], &mut y[i])`.
#[derive(Debug)]
pub struct VecCoordsIterMut<'a, T> {
    x: &'a mut [T],
    y: &'a mut [T],
}

impl<'a, T> VecCoordsIterMut<'a, T> {
    /// The rest of the first column, still to be yielded.
    pub closed spec fn first_rest(&self) -> &'a mut [T] {
        self.x
    }

    /// The rest of the second column, still to be yielded.
    pub closed spec fn second_rest(&self) -> &'a mut [T] {
        self.y
    }

    /// Yields the next pair, through which it can be changed, or `None`
    /// once all were yielded.
    pub fn next(&mut self) -> (r: Option<(&'a mut T, &'a mut T)>)
        ensures
            (old(self).first_rest()@.len() > 0 && old(self).second_rest()@.len() > 0) ==> {
                &&& r matches Some((a, b)) && {
                    &&& *a == old(self).first_rest()@[0]
                    &&& *b == old(self).second_rest()@[0]
                    &&& final(self).first_rest()@ == old(self).first_rest()@.drop_first()
                    &&& final(self).second_rest()@ == old(self).second_rest()@.drop_first()
                    &&& final(old(self).first_rest())@ == seq![*final(a)] + final(final(self).first_rest())@
                    &&& final(old(self).second_rest())@ == seq![*final(b)] + final(final(self).second_rest())@
                }
            },
            !(old(self).first_rest()@.len() > 0 && old(self).second_rest()@.len() > 0) ==> {
                &&& r is None
                &&& final(self).first_rest()@ == old(self).first_rest()@
                &&& final(self).second_rest()@ == old(self).second_rest()@
                &&& final(old(self).first_rest())@ == final(final(self).first_rest())@
                &&& final(old(self).second_rest())@ == final(final(self).second_rest())@
            },
    {
        let mut firsts: &'a mut [T] = &mut [];
        let mut seconds: &'a mut [T] = &mut [];
        core::mem::swap(&mut self.x, &mut firsts);
        core::mem::swap(&mut self.y, &mut seconds);
        if firsts.len() == 0 || seconds.len() == 0 {
            self.x = firsts;
            self.y = seconds;
            return None;
        }
        let (hx, tx) = firsts.split_at_mut(1);
        let (hy, ty) = seconds.split_at_mut(1);
        self.x = tx;
        self.y = ty;
        match (hx.first_mut(), hy.first_mut()) {
            (Some(a), Some(b)) => Some((a, b)),
            _ => None,
        }
    }

    /// Number of points left, as a lower and an exact upper bound.
    pub fn size_hint(&self) -> (r: (usize, Option<usize>))
        ensures
            r.0 == self.first_rest()@.len(),
            r.1 == Some(r.0),
    {
        let n = self.x.len();
        (n, Some(n))
    }
}

/// Cursor over the sizes of a [`VecSizes`], yielding `(&mut w[i], &mut h[i])`.
#[derive(Debug)]
pub struct VecSizesIterMut<'a, T> {
    w: &'a mut [T],
    h: &'a mut [T],
}

impl<'a, T> VecSizesIterMut<'a, T> {
    /// The rest of the first column, still to be yielded.
    pub closed spec fn first_rest(&self) -> &'a mut [T] {
        self.w
    }

    /// The rest of the second column, still to be yielded.
    pub closed spec fn second_rest(&self) -> &'a mut [T] {
        self.h
    }

    /// Yields the next pair, through which it can be changed, or `None`
    /// once all were yielded.
    pub fn next(&mut self) -> (r: Option<(&'a mut T, &'a mut T)>)
        ensures
            (old(self).first_rest()@.len() > 0 && old(self).second_rest()@.len() > 0) ==> {
                &&& r matches Some((a, b)) && {
                    &&& *a == old(self).first_rest()@[0]
                    &&& *b == old(self).second_rest()@[0]
                    &&& final(self).first_rest()@ == old(self).first_rest()@.drop_first()
                    &&& final(self).second_rest()@ == old(self).second_rest()@.drop_first()
                    &&& final(old(self).first_rest())@ == seq![*final(a)] + final(final(self).first_rest())@
                    &&& final(old(self).second_rest())@ == seq![*final(b)] + final(final(self).second_rest())@
                }
            },
            !(old(self).first_rest()@.len() > 0 && old(self).second_rest()@.len() > 0) ==> {
                &&& r is None
                &&& final(self).first_rest()@ == old(self).first_rest()@
                &&& final(self).second_rest()@ == old(self).second_rest()@
                &&& final(old(self).first_rest())@ == final(final(self).first_rest())@
                &&& final(old(self).second_rest())@ == final(final(self).second_rest())@
            },
    {
        let mut firsts: &'a mut [T] = &mut [];
        let mut seconds: &'a mut [T] = &mut [];
        core::mem::swap(&mut self.w, &mut firsts);
        core::mem::swap(&mut self.h, &mut seconds);
        if firsts.len() == 0 || seconds.len() == 0 {
            self.w = firsts;
            self.h = seconds;
            return None;
        }
        let (hx, tx) = firsts.split_at_mut(1);
        let (hy, ty) = seconds.split_at_mut(1);
        self.w = tx;
        self.h = ty;
        match (hx.first_mut(), hy.first_mut()) {
            (Some(a), Some(b)) => Some((a, b)),
            _ => None,
        }
    }

    /// Number of sizes left, as a lower and an exact upper bound.
    pub fn size_hint(&self) -> (r: (usize, Option<usize>))
        ensures
            r.0 == self.first_rest()@.len(),
            r.1 == Some(r.0),
    {
        let n = self.w.len();
        (n, Some(n))
    }
}

} // verus!
