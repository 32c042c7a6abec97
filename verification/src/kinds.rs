use vstd::prelude::*;

verus! {

/// What an instance is.
#[derive(Debug, PartialEq, Eq, Structural, Clone, Copy)]
#[allow(clippy::upper_case_acronyms)]
pub enum InstanceType {
    MACRO,
    STDCELL,
    TERMINAL,
}

impl InstanceType {
    pub fn is_macro(&self) -> (r: bool)
        ensures
            r == (*self == InstanceType::MACRO),
    {
        match self {
            InstanceType::MACRO => true,
            _ => false,
        }
    }

    pub fn is_terminal(&self) -> (r: bool)
        ensures
            r == (*self == InstanceType::TERMINAL),
    {
        match self {
            InstanceType::TERMINAL => true,
            _ => false,
        }
    }
}

impl Default for InstanceType {
    fn default() -> (r: Self)
        ensures
            r == InstanceType::STDCELL,
    {
        InstanceType::STDCELL
    }
}

/// Whether the placer may move an instance.
#[derive(Debug, PartialEq, Eq, Structural, Clone, Copy)]
#[allow(clippy::upper_case_acronyms)]
pub enum PlacementType {
    FIXED,
    MOVABLE,
}

impl PlacementType {
    pub fn is_movable(&self) -> (r: bool)
        ensures
            r == (*self == PlacementType::MOVABLE),
    {
        match self {
            PlacementType::MOVABLE => true,
            _ => false,
        }
    }
}

impl Default for PlacementType {
    fn default() -> (r: Self)
        ensures
            r == PlacementType::MOVABLE,
    {
        PlacementType::MOVABLE
    }
}

/// Orientation of an instance or a pin (North, South, East, West, and
/// their flipped forms).
#[derive(Debug, PartialEq, Eq, Structural, Clone, Copy)]
#[allow(clippy::upper_case_acronyms)]
pub enum OrientType {
    N,
    S,
    E,
    W,
    FN,
    FS,
    FE,
    FW,
}

impl OrientType {
    /// Orientations turned by a quarter turn, whose width and height swap.
    pub open spec fn is_rotated_spec(&self) -> bool {
        match self {
            OrientType::E | OrientType::W | OrientType::FE | OrientType::FW => true,
            _ => false,
        }
    }

    pub fn is_rotated(&self) -> (r: bool)
        ensures
            r == self.is_rotated_spec(),
    {
        match self {
            OrientType::E | OrientType::W | OrientType::FE | OrientType::FW => true,
            _ => false,
        }
    }
}

impl Default for OrientType {
    fn default() -> (r: Self)
        ensures
            r == OrientType::N,
    {
        OrientType::N
    }
}

} // verus!
