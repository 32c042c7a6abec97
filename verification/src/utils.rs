//! The database's building blocks, under the names the database uses.

pub use crate::columns::{VecCoords, VecCoordsIter, VecSizes, VecSizesIter};
pub use crate::geometry::{Coords, DieArea, Size};
pub use crate::instances::VecInstances;
pub use crate::instances_reader::{ParsedInstance, read_instances};
pub use crate::kinds::{InstanceType, OrientType, PlacementType};
pub use crate::netlist::{Net, Netlist, ParsedPin, RawPin};
pub use crate::nets_reader::{parse_io_pin, parse_net, parse_node_pin};
pub use crate::numeric::Numeric;
pub use crate::units::{get_lef_def_units, get_lef_scale, get_lef_units};
