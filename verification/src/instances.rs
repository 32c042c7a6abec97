use vstd::prelude::*;

use crate::columns::{VecCoords, VecSizes};
use crate::kinds::{InstanceType, OrientType, PlacementType};
use crate::numeric::Numeric;

verus! {

/// `after` is `before` with one more item at its end.
pub open spec fn grows_by_one<A>(before: Seq<A>, after: Seq<A>) -> bool {
    after.len() == before.len() + 1 && after.drop_last() == before
}

/// All placement instances, kept column-wise: instance `i` is at
/// `coords[i]`, has size `sizes[i]`, kind `types[i]`, placement kind
/// `pl_types[i]`, orientation `o_types[i]`, area `areas[i]` and
/// `num_pins[i]` pins.
#[derive(Debug)]
pub struct VecInstances<T: Numeric> {
    pub coords: VecCoords<T>,
    pub sizes: VecSizes<T>,
    pub types: Vec<InstanceType>,
    pub pl_types: Vec<PlacementType>,
    pub o_types: Vec<OrientType>,
    /// Redundant (`w * h`) but useful for computation.
    pub areas: Vec<T>,
    /// Kept as a scalar to avoid later conversions.
    pub num_pins: Vec<T>,
}

impl<T: Numeric> VecInstances<T> {
    /// Number of instances, as the coordinate column counts them.
    pub open spec fn len_spec(&self) -> nat {
        self.coords.x@.len()
    }

    /// All columns have the same length.
    pub open spec fn wf(&self) -> bool {
        let n = self.coords.x.len();
        &&& self.coords.y.len() == n
        &&& self.sizes.w.len() == n
        &&& self.sizes.h.len() == n
        &&& self.types.len() == n
        &&& self.pl_types.len() == n
        &&& self.o_types.len() == n
        &&& self.areas.len() == n
        &&& self.num_pins.len() == n
    }

    /// `after` is `before` with one instance appended: every column grows by
    /// one entry and keeps its earlier entries, and the new area is the new
    /// width times the new height.
    pub open spec fn push_step(before: Self, after: Self) -> bool {
        &&& grows_by_one(before.coords.x@, after.coords.x@)
        &&& grows_by_one(before.coords.y@, after.coords.y@)
        &&& grows_by_one(before.sizes.w@, after.sizes.w@)
        &&& grows_by_one(before.sizes.h@, after.sizes.h@)
        &&& grows_by_one(before.types@, after.types@)
        &&& grows_by_one(before.pl_types@, after.pl_types@)
        &&& grows_by_one(before.o_types@, after.o_types@)
        &&& grows_by_one(before.areas@, after.areas@)
        &&& grows_by_one(before.num_pins@, after.num_pins@)
        &&& after.areas@.last() == after.sizes.w@.last().mul_spec(after.sizes.h@.last())
    }

    pub fn new(
        coords: VecCoords<T>,
        sizes: VecSizes<T>,
        types: Vec<InstanceType>,
        pl_types: Vec<PlacementType>,
        o_types: Vec<OrientType>,
        areas: Vec<T>,
        num_pins: Vec<T>,
    ) -> (r: Self)
        requires
            coords.wf(),
            sizes.wf(),
            coords.x.len() == sizes.w.len(),
            types.len() == sizes.w.len(),
            pl_types.len() == sizes.w.len(),
            o_types.len() == sizes.w.len(),
            areas.len() == sizes.w.len(),
            num_pins.len() == sizes.w.len(),
        ensures
            r.wf(),
            r.coords == coords,
            r.sizes == sizes,
            r.types == types,
            r.pl_types == pl_types,
            r.o_types == o_types,
            r.areas == areas,
            r.num_pins == num_pins,
    {
        Self { coords, sizes, types, pl_types, o_types, areas, num_pins }
    }

    /// No instances.
    pub fn empty() -> (r: Self)
        ensures
            r.wf(),
            r.len_spec() == 0,
    {
        Self {
            coords: VecCoords::new(Vec::new(), Vec::new()),
            sizes: VecSizes::new(Vec::new(), Vec::new()),
            types: Vec::new(),
            pl_types: Vec::new(),
            o_types: Vec::new(),
            areas: Vec::new(),
            num_pins: Vec::new(),
        }
    }

    /// Appends an instance at `(x, y)` of size `w` by `h`, with area
    /// `w * h`, and returns its index.
    pub fn push(
        &mut self,
        x: T,
        y: T,
        w: T,
        h: T,
        t: InstanceType,
        pl_t: PlacementType,
        o_t: OrientType,
        num_pins: T,
    ) -> (r: usize)
        requires
            old(self).coords.wf(),
        ensures
            old(self).wf() ==> final(self).wf(),
            r == old(self).len_spec(),
            final(self).len_spec() == old(self).len_spec() + 1,
            final(self).coords.x@ == old(self).coords.x@.push(x),
            final(self).coords.y@ == old(self).coords.y@.push(y),
            final(self).sizes.w@ == old(self).sizes.w@.push(w),
            final(self).sizes.h@ == old(self).sizes.h@.push(h),
            final(self).types@ == old(self).types@.push(t),
            final(self).pl_types@ == old(self).pl_types@.push(pl_t),
            final(self).o_types@ == old(self).o_types@.push(o_t),
            final(self).areas@ == old(self).areas@.push(w.mul_spec(h)),
            final(self).num_pins@ == old(self).num_pins@.push(num_pins),
            Self::push_step(*old(self), *final(self)),
    {
        self.coords.push(x, y);
        self.sizes.push(w, h);
        self.types.push(t);
        self.pl_types.push(pl_t);
        self.o_types.push(o_t);
        self.areas.push(w.mul(h));
        self.num_pins.push(num_pins);
        assert(self.coords.x@.drop_last() =~= old(self).coords.x@);
        assert(self.coords.y@.drop_last() =~= old(self).coords.y@);
        assert(self.sizes.w@.drop_last() =~= old(self).sizes.w@);
        assert(self.sizes.h@.drop_last() =~= old(self).sizes.h@);
        assert(self.types@.drop_last() =~= old(self).types@);
        assert(self.pl_types@.drop_last() =~= old(self).pl_types@);
        assert(self.o_types@.drop_last() =~= old(self).o_types@);
        assert(self.areas@.drop_last() =~= old(self).areas@);
        assert(self.num_pins@.drop_last() =~= old(self).num_pins@);

        self.coords.len() - 1
    }

    pub fn len(&self) -> (r: usize)
        requires
            self.coords.wf(),
        ensures
            r == self.len_spec(),
    {
        self.coords.len()
    }

    pub fn is_empty(&self) -> (r: bool)
        requires
            self.coords.wf(),
        ensures
            r == (self.len_spec() == 0),
    {
        self.len() == 0
    }

    /// Whether instance `index` exists and is movable.
    pub fn is_movable(&self, index: usize) -> (r: bool)
        requires
            self.coords.wf(),
            index < self.len_spec() ==> index < self.pl_types.len(),
        ensures
            r == (index < self.len_spec() && self.pl_types@[index as int] == PlacementType::MOVABLE),
    {
        if index >= self.len() {
            return false;
        }
        self.pl_types[index].is_movable()
    }

    /// Whether instance `index` exists and is a macro.
    pub fn is_macro(&self, index: usize) -> (r: bool)
        requires
            self.coords.wf(),
            index < self.len_spec() ==> index < self.types.len(),
        ensures
            r == (index < self.len_spec() && self.types@[index as int] == InstanceType::MACRO),
    {
        if index >= self.len() {
            return false;
        }
        self.types[index].is_macro()
    }

    /// Whether instance `index` exists and is a terminal (an I/O pin).
    pub fn is_terminal(&self, index: usize) -> (r: bool)
        requires
            self.coords.wf(),
            index < self.len_spec() ==> index < self.types.len(),
        ensures
            r == (index < self.len_spec() && self.types@[index as int] == InstanceType::TERMINAL),
    {
        if index >= self.len() {
            return false;
        }
        self.types[index].is_terminal()
    }
}

impl<T: Numeric> Default for VecInstances<T> {
    fn default() -> (r: Self)
        ensures
            r.wf(),
            r.len_spec() == 0,
    {
        Self::empty()
    }
}

} // verus!
