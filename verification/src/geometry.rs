use vstd::prelude::*;

use crate::numeric::Numeric;

verus! {

/// A point (or an offset) in the placement plane.
#[derive(Copy, Clone, Debug, Default)]
pub struct Coords<T> {
    pub x: T,
    pub y: T,
}

impl<T> Coords<T> {
    pub fn new(x: T, y: T) -> (r: Self)
        ensures
            r.x == x,
            r.y == y,
    {
        Self { x, y }
    }
}

/// A width and a height.
#[derive(Copy, Clone, Debug)]
pub struct Size<T> {
    pub width: T,
    pub height: T,
}

impl<T> Size<T> {
    pub fn new(width: T, height: T) -> (r: Self)
        ensures
            r.width == width,
            r.height == height,
    {
        Self { width, height }
    }
}

/// The placement region.  `size` is the region in use, `full_size` the
/// whole die; `offset` is where the region starts.
#[derive(Debug)]
pub struct DieArea<T: Numeric> {
    pub site_name: Option<String>,
    pub size: Size<T>,
    pub full_size: Size<T>,
    pub offset: Coords<T>,
}

impl<T: Numeric> DieArea<T> {
    pub fn new(site_name: Option<String>, size: Size<T>, full_size: Size<T>, offset: Coords<T>) -> (r: Self)
        ensures
            r.site_name == site_name,
            r.size == size,
            r.full_size == full_size,
            r.offset == offset,
    {
        Self { site_name, size, full_size, offset }
    }

    pub fn width(&self) -> (r: T)
        ensures
            r == self.size.width,
    {
        self.size.width
    }

    pub fn height(&self) -> (r: T)
        ensures
            r == self.size.height,
    {
        self.size.height
    }

    pub fn full_width(&self) -> (r: T)
        ensures
            r == self.full_size.width,
    {
        self.full_size.width
    }

    pub fn full_height(&self) -> (r: T)
        ensures
            r == self.full_size.height,
    {
        self.full_size.height
    }

    /// The area of the region in use.
    pub open spec fn area_spec(&self) -> T {
        self.size.width.mul_spec(self.size.height)
    }

    pub fn area(&self) -> (r: T)
        ensures
            r == self.area_spec(),
    {
        self.size.width.mul(self.size.height)
    }

    /// Makes the whole die the region in use.
    pub fn use_full_size(&mut self)
        ensures
            final(self).size == old(self).full_size,
            final(self).full_size == old(self).full_size,
            final(self).offset == old(self).offset,
            final(self).site_name == old(self).site_name,
    {
        self.size = Size::new(self.full_size.width, self.full_size.height);
    }
}

/// The die area of a DEF design, from its rectangle in DEF distances:
/// `width` by `height` in full, `inner_width` by `inner_height` without the
/// margins left by the rows of the site, at `offset`.  Distances are
/// scaled by `units` times `scale`; with `full_diearea` the whole die is
/// used for placement.
pub fn die_area_from_rectangle<T: Numeric>(
    site_name: Option<String>,
    inner_width: T,
    inner_height: T,
    width: T,
    height: T,
    offset: Coords<T>,
    units: T,
    scale: T,
    full_diearea: bool,
) -> (r: DieArea<T>)
    ensures
        r.site_name == site_name,
        r.full_size == (Size { width: width.mul_spec(units).mul_spec(scale), height: height.mul_spec(units).mul_spec(scale) }),
        r.size == if full_diearea {
            r.full_size
        } else {
            Size { width: inner_width.mul_spec(units).mul_spec(scale), height: inner_height.mul_spec(units).mul_spec(scale) }
        },
        r.offset == offset,
{
    let mut diearea = DieArea::new(
        site_name,
        Size::new(inner_width.mul(units).mul(scale), inner_height.mul(units).mul(scale)),
        Size::new(width.mul(units).mul(scale), height.mul(units).mul(scale)),
        offset,
    );
    if full_diearea {
        diearea.use_full_size();
    }
    diearea
}

} // verus!
