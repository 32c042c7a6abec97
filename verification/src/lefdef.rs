use vstd::prelude::*;

use crate::geometry::Size;
use crate::kinds::OrientType;

verus! {

// What the database reads of a LEF library and of a DEF design, as plain
// values.  Coordinates of the DEF design are integers in DEF database units;
// lengths of the LEF library (and the pin shapes of both files) are scalars.

/// A bounding box: lower-left corner `(xl, yl)`, width `w`, height `h`.
#[derive(Copy, Clone, Debug)]
pub struct Rect<T> {
    pub xl: T,
    pub yl: T,
    pub w: T,
    pub h: T,
}

/// A pin of a LEF macro.  `bbox` is the bounding box of its shapes, or
/// `None` when it has none.
#[derive(Debug)]
pub struct LefPin<T> {
    pub name: String,
    pub bbox: Option<Rect<T>>,
}

/// A LEF macro (a cell model).
#[derive(Debug)]
pub struct LefMacro<T> {
    pub name: String,
    /// Width and height, when the macro gives them.
    pub size: Option<Size<T>>,
    /// Whether the macro is a block (a macro) rather than a standard cell.
    pub is_macro: bool,
    pub pins: Vec<LefPin<T>>,
}

/// A LEF library.
#[derive(Debug)]
pub struct Lef<T> {
    /// `UNITS DATABASE MICRONS`, when given.
    pub database_units: Option<i32>,
    pub macros: Vec<LefMacro<T>>,
}

/// Where a DEF component or pin is placed, and how it is turned.
#[derive(Copy, Clone, Debug)]
pub struct DefPlacement {
    pub x: i32,
    pub y: i32,
    pub orient: OrientType,
}

/// A DEF component: an instance `name` of the LEF macro `model`.
#[derive(Debug)]
pub struct DefComponent {
    pub name: String,
    pub model: String,
    /// Whether the placement status keeps the component in place.
    pub fixed: bool,
    pub placement: Option<DefPlacement>,
}

/// A DEF I/O pin.  `bbox` is the bounding box of its shapes, or `None`
/// when it has none.
#[derive(Debug)]
pub struct DefPin<T> {
    pub name: String,
    pub placement: Option<DefPlacement>,
    pub bbox: Option<Rect<T>>,
}

/// A DEF net.  Each connection is `(instance name, pin name)`; the
/// instance name `PIN` stands for an I/O pin of the design.
#[derive(Debug)]
pub struct DefNet {
    pub name: String,
    pub connections: Option<Vec<(String, String)>>,
}

/// A DEF row of sites, starting at `(x, y)`.
#[derive(Debug)]
pub struct DefRow {
    pub site: String,
    pub x: i32,
    pub y: i32,
}

/// A DEF design.
#[derive(Debug)]
pub struct Def<T> {
    /// `UNITS DISTANCE MICRONS`, when given.
    pub units: Option<i32>,
    pub rows: Vec<DefRow>,
    pub components: Option<Vec<DefComponent>>,
    pub pins: Vec<DefPin<T>>,
    pub nets: Option<Vec<DefNet>>,
}

/// Why a LEF library and a DEF design could not be read into a database.
#[derive(Debug, PartialEq, Eq)]
pub enum DbError {
    /// The LEF library gives no database units.
    MissingLefUnits,
    /// The DEF design gives no units.
    MissingDefUnits,
    /// No LEF macro has this name.
    ModelNotFound(String),
    /// The LEF macro of a component gives no size.
    SizeNotFound,
    /// No DEF pin has this name.
    IoPinNotFound(String),
    /// This DEF pin is not placed.
    PlacementNotFound(String),
    /// No DEF component has this name.
    InstanceNotFound(String),
    /// The LEF macro `model` has no pin named `pin`.
    PinNotFound { pin: String, model: String },
    /// This pin has no shape to take a bounding box of.
    NoPinShape(String),
}

} // verus!
