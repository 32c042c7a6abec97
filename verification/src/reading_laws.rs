use vstd::prelude::*;

use crate::db::count;
use crate::instances_reader::{ComponentsOutcome, ParsedInstance, components_outcome, read_instances_spec};
use crate::kinds::{InstanceType, OrientType, PlacementType};
use crate::lefdef::{Def, DefComponent, DefNet, Lef};
use crate::lookup::{def_pin_named, first_index, last_index, lef_pin_named, macro_named};
use crate::nets_reader::{
    connection_count, half_toward_zero, instance_named, io_pin_spec, net_pins_spec, nets_outcome,
    node_pin_spec, parse_nets_spec,
};
use crate::numeric::Numeric;

verus! {

// What reading a library and a design gives, stated over the inputs:
// which nets are kept, where components and pins end up.

/// Nets that list exactly `k` connections.
pub open spec fn with_connections(k: int) -> spec_fn(DefNet) -> bool {
    |n: DefNet| connection_count(n) == k
}

/// Nets that list more than `k` connections.
pub open spec fn with_more_connections(k: int) -> spec_fn(DefNet) -> bool {
    |n: DefNet| connection_count(n) > k
}

/// A net whose connections all read gives one pin per connection.
pub proof fn lemma_one_pin_per_connection<T: Numeric>(
    lef: &Lef<T>,
    def: &Def<T>,
    parsed: Seq<ParsedInstance<T>>,
    conns: Seq<(String, String)>,
    units: T,
    scale: T,
    lef_scale: T,
    n0: nat,
)
    ensures
        ({
            let out = net_pins_spec(lef, def, parsed, conns, units, scale, lef_scale, n0);
            out.2 is None ==> out.0.len() == conns.len()
        }),
    decreases conns.len(),
{
    if conns.len() > 0 {
        lemma_one_pin_per_connection(lef, def, parsed, conns.drop_last(), units, scale, lef_scale, n0);
    }
}

/// Reading nets without error keeps every net of at least two
/// connections and no other: those of 2 connections become the 2-pin
/// nets, those of 3 the 3-pin nets, and all larger ones the larger nets.
pub proof fn lemma_nets_kept<T: Numeric>(
    lef: &Lef<T>,
    def: &Def<T>,
    parsed: Seq<ParsedInstance<T>>,
    nets: Seq<DefNet>,
    units: T,
    scale: T,
    lef_scale: T,
    n0: nat,
)
    ensures
        ({
            let out = nets_outcome(lef, def, parsed, nets, units, scale, lef_scale, n0);
            out.error is None ==> {
                &&& out.nets2.len() == count(nets, with_connections(2))
                &&& out.nets3.len() == count(nets, with_connections(3))
                &&& out.netsn.len() == count(nets, with_more_connections(3))
                &&& out.nets2.len() + out.nets3.len() + out.netsn.len() == count(nets, with_more_connections(1))
            }
        }),
    decreases nets.len(),
{
    if nets.len() > 0 {
        let init = nets.drop_last();
        lemma_nets_kept(lef, def, parsed, init, units, scale, lef_scale, n0);
        let prev = nets_outcome(lef, def, parsed, init, units, scale, lef_scale, n0);
        let net = nets.last();
        if let Some(c) = net.connections {
            lemma_one_pin_per_connection(lef, def, parsed, c@, units, scale, lef_scale, n0 + prev.terminals.len());
        }
    }
}

/// Reading the nets of a design without error keeps every DEF net of at
/// least two connections and no other, filed by size: the 2-pin nets are
/// the nets of 2 connections, the 3-pin nets those of 3, the larger nets
/// all those of more than 3.
pub proof fn lemma_read_nets_keeps_every_net<T: Numeric>(
    lef: &Lef<T>,
    def: &Def<T>,
    parsed: Seq<ParsedInstance<T>>,
    scale: T,
    n0: nat,
)
    ensures
        ({
            let out = parse_nets_spec(lef, def, parsed, scale, n0);
            let nets = match def.nets {
                Some(n) => n@,
                None => Seq::empty(),
            };
            out.error is None ==> {
                &&& out.nets2.len() == count(nets, with_connections(2))
                &&& out.nets3.len() == count(nets, with_connections(3))
                &&& out.netsn.len() == count(nets, with_more_connections(3))
                &&& out.nets2.len() + out.nets3.len() + out.netsn.len() == count(nets, with_more_connections(1))
            }
        }),
{
    match def.nets {
        Some(n) => {
            match crate::units::lef_def_units_spec(lef, def) {
                Ok(units) => match crate::units::lef_scale_spec(lef, scale) {
                    Ok(lef_scale) => {
                        lemma_nets_kept(lef, def, parsed, n@, units, scale, lef_scale, n0);
                    },
                    Err(_) => {},
                },
                Err(_) => {},
            }
        },
        None => {},
    }
}

/// Where a component of `comps` lands when reading them all succeeds:
/// one record per component, in order, a placed one at its DEF
/// coordinates times `units` times `scale`.
proof fn lemma_components_placed<T: Numeric>(
    lef: &Lef<T>,
    comps: Seq<DefComponent>,
    units: T,
    scale: T,
    lef_scale: T,
)
    ensures
        components_outcome(lef, comps, units, scale, lef_scale) matches ComponentsOutcome::Done(recs) ==> {
            &&& recs.len() == comps.len()
            &&& forall|i: int|
                0 <= i < comps.len() ==> ((#[trigger] comps[i]).placement matches Some(p) ==> {
                    &&& recs[i].0.coords.x == T::from_i32_spec(p.x).mul_spec(units).mul_spec(scale)
                    &&& recs[i].0.coords.y == T::from_i32_spec(p.y).mul_spec(units).mul_spec(scale)
                    &&& recs[i].0.orient_type == p.orient
                })
            &&& forall|i: int|
                0 <= i < comps.len() ==> ((#[trigger] comps[i]).placement is None ==> {
                    &&& recs[i].0.coords.x == T::zero_spec()
                    &&& recs[i].0.coords.y == T::zero_spec()
                    &&& recs[i].0.orient_type == OrientType::N
                })
            &&& forall|i: int|
                0 <= i < comps.len() ==> {
                    let k = last_index(lef.macros@, macro_named::<T>((#[trigger] comps[i]).model@));
                    &&& k is Some
                    &&& recs[i].0.name == comps[i].name
                    &&& recs[i].0.model == comps[i].model
                    &&& (recs[i].0.placement_type == PlacementType::FIXED) == comps[i].fixed
                    &&& (recs[i].0.placement_type == PlacementType::MOVABLE) == !comps[i].fixed
                    &&& (recs[i].0.instance_type == InstanceType::MACRO) == lef.macros@[k->Some_0].is_macro
                    &&& (recs[i].0.instance_type == InstanceType::STDCELL) == !lef.macros@[k->Some_0].is_macro
                    &&& recs[i].1 == T::from_usize_spec(lef.macros@[k->Some_0].pins@.len() as usize)
                    &&& lef.macros@[k->Some_0].size is Some
                    &&& recs[i].0.size.width == lef.macros@[k->Some_0].size->Some_0.width.mul_spec(units).mul_spec(
                        lef_scale,
                    )
                    &&& recs[i].0.size.height == lef.macros@[k->Some_0].size->Some_0.height.mul_spec(units).mul_spec(
                        lef_scale,
                    )
                }
        },
    decreases comps.len(),
{
    if comps.len() > 0 {
        let init = comps.drop_last();
        lemma_components_placed(lef, init, units, scale, lef_scale);
        let out = components_outcome(lef, comps, units, scale, lef_scale);
        if out is Done {
            let recs = out->Done_0;
            let prev = components_outcome(lef, init, units, scale, lef_scale)->Done_0;
            assert(recs.drop_last() == prev);
            assert forall|i: int| 0 <= i < comps.len() - 1 implies #[trigger] comps[i] == init[i] && recs[i]
                == prev[i] by {}
        }
    }
}

/// Reading the components of a design: one instance per component, in
/// file order; a placed component sits at its DEF coordinates times the
/// ratio of LEF database units to DEF units times `scale`, and has the
/// size of its LEF macro (the last of that name) times the same ratio
/// times LEF database units times `scale`, so that coordinates and sizes
/// are in the same units.
pub proof fn lemma_component_coordinates<T: Numeric>(lef: &Lef<T>, def: &Def<T>, scale: T)
    ensures
        match (read_instances_spec(lef, def, scale), def.components) {
            (ComponentsOutcome::Done(recs), Some(comps)) => {
                let lef_units = T::from_i32_spec(lef.database_units->Some_0);
                let ratio = lef_units.div_spec(T::from_i32_spec(def.units->Some_0));
                &&& lef.database_units is Some
                &&& def.units is Some
                &&& recs.len() == comps@.len()
                &&& forall|i: int|
                    0 <= i < comps@.len() ==> ((#[trigger] comps@[i]).placement matches Some(p) ==> {
                        &&& recs[i].0.coords.x == T::from_i32_spec(p.x).mul_spec(ratio).mul_spec(scale)
                        &&& recs[i].0.coords.y == T::from_i32_spec(p.y).mul_spec(ratio).mul_spec(scale)
                        &&& recs[i].0.orient_type == p.orient
                    })
                &&& forall|i: int|
                    0 <= i < comps@.len() ==> {
                        let k = last_index(lef.macros@, macro_named::<T>((#[trigger] comps@[i]).model@));
                        &&& k is Some
                        &&& lef.macros@[k->Some_0].size is Some
                        &&& recs[i].0.size.width == lef.macros@[k->Some_0].size->Some_0.width.mul_spec(
                            ratio,
                        ).mul_spec(lef_units.mul_spec(scale))
                        &&& recs[i].0.size.height == lef.macros@[k->Some_0].size->Some_0.height.mul_spec(
                            ratio,
                        ).mul_spec(lef_units.mul_spec(scale))
                    }
            },
            _ => true,
        },
{
    if def.components is Some && lef.database_units is Some && def.units is Some {
        let units = T::from_i32_spec(lef.database_units->Some_0).div_spec(
            T::from_i32_spec(def.units->Some_0),
        );
        let lef_scale = T::from_i32_spec(lef.database_units->Some_0).mul_spec(scale);
        lemma_components_placed(lef, def.components->Some_0@, units, scale, lef_scale);
    }
}

/// A cell pin sits at the middle of its LEF bounding box, in the frame of
/// its cell, with the size of that box; offset and size are both scaled
/// by `units` then `lef_scale`.  The cell is the last instance of that
/// name, its macro the last of its model's name, the pin the first of
/// that name in the macro.
pub proof fn lemma_node_pin_at_box_middle<T: Numeric>(
    lef: &Lef<T>,
    parsed: Seq<ParsedInstance<T>>,
    pin_name: String,
    inst_name: String,
    units: T,
    lef_scale: T,
)
    ensures
        node_pin_spec(lef, parsed, pin_name, inst_name, units, lef_scale) matches Ok((id, at, size)) ==> {
            let c = last_index(parsed, instance_named::<T>(inst_name@));
            &&& c is Some
            &&& {
                let cell = parsed[c->Some_0];
                let k = last_index(lef.macros@, macro_named::<T>(cell.model@));
                &&& id == cell.id
                &&& k is Some
                &&& {
                    let pins = lef.macros@[k->Some_0].pins@;
                    let q = first_index(pins, lef_pin_named::<T>(pin_name@));
                    &&& q is Some
                    &&& pins[q->Some_0].bbox is Some
                    &&& {
                        let bb = pins[q->Some_0].bbox->Some_0;
                        let two = T::one_spec().add_spec(T::one_spec());
                        &&& at.x == bb.xl.add_spec(bb.w.div_spec(two)).mul_spec(units).mul_spec(lef_scale)
                        &&& at.y == bb.yl.add_spec(bb.h.div_spec(two)).mul_spec(units).mul_spec(lef_scale)
                        &&& size.width == bb.w.mul_spec(units).mul_spec(lef_scale)
                        &&& size.height == bb.h.mul_spec(units).mul_spec(lef_scale)
                    }
                }
            }
        },
{
}

/// An I/O pin sits at the middle of its DEF box, half sizes rounded
/// toward zero: for a pin turned E, W, FE or FW its offset is (half
/// height, half width), for N, S, FN or FS it is (half width, half
/// height), both scaled by `units` then `scale`.  The pin is on a new
/// instance numbered `n_inst`, of the size of the box and of the pin's
/// orientation.
pub proof fn lemma_io_pin_offset<T: Numeric>(def: &Def<T>, pin_name: String, units: T, scale: T, n_inst: nat)
    ensures
        io_pin_spec(def, pin_name, units, scale, n_inst) matches Ok((pin, t)) ==> {
            let k = last_index(def.pins@, def_pin_named::<T>(pin_name@));
            &&& k is Some
            &&& def.pins@[k->Some_0].placement is Some
            &&& def.pins@[k->Some_0].bbox is Some
            &&& {
                let pl = def.pins@[k->Some_0].placement->Some_0;
                let bb = def.pins@[k->Some_0].bbox->Some_0;
                let half_w = T::from_i32_spec(half_toward_zero(bb.w.trunc_i32_spec()));
                let half_h = T::from_i32_spec(half_toward_zero(bb.h.trunc_i32_spec()));
                &&& pin.0 == n_inst as usize
                &&& (pl.orient == OrientType::E || pl.orient == OrientType::W || pl.orient == OrientType::FE
                    || pl.orient == OrientType::FW) ==> {
                    &&& pin.1.x == half_h.mul_spec(units).mul_spec(scale)
                    &&& pin.1.y == half_w.mul_spec(units).mul_spec(scale)
                }
                &&& (pl.orient == OrientType::N || pl.orient == OrientType::S || pl.orient == OrientType::FN
                    || pl.orient == OrientType::FS) ==> {
                    &&& pin.1.x == half_w.mul_spec(units).mul_spec(scale)
                    &&& pin.1.y == half_h.mul_spec(units).mul_spec(scale)
                }
                &&& pin.2.width == bb.w.mul_spec(units).mul_spec(scale)
                &&& pin.2.height == bb.h.mul_spec(units).mul_spec(scale)
                &&& t.x == T::from_i32_spec(pl.x).mul_spec(units).mul_spec(scale).add_spec(
                    bb.xl.mul_spec(units).mul_spec(scale),
                )
                &&& t.y == T::from_i32_spec(pl.y).mul_spec(units).mul_spec(scale).add_spec(
                    bb.yl.mul_spec(units).mul_spec(scale),
                )
                &&& t.w == pin.2.width
                &&& t.h == pin.2.height
                &&& t.orient == pl.orient
            }
        },
{
}

} // verus!
