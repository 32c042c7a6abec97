use vstd::prelude::*;
use vstd::string::StrSliceExecFns;

use crate::geometry::{Coords, Size};
use crate::instances::VecInstances;
use crate::instances_reader::ParsedInstance;
use crate::kinds::{InstanceType, OrientType, PlacementType};
use crate::lefdef::{DbError, Def, DefNet, Lef};
use crate::lookup::{
    def_pin_named, find_def_pin, find_lef_pin, find_macro, first_index, last_index, lef_pin_named,
    lemma_first_index_found, lemma_last_index_found, macro_named,
};
use crate::name_index::{NameIndex, named, names_of};
use crate::netlist::{RawPin, nets_view};
use crate::numeric::Numeric;
use crate::units::{get_lef_def_units, get_lef_scale, lef_def_units_spec, lef_scale_spec};

verus! {

/// Half of `v`, rounded toward zero, as integer division does.
pub open spec fn half_toward_zero(v: i32) -> i32 {
    if v >= 0 {
        (v / 2) as i32
    } else {
        -((-v) / 2) as i32
    }
}

pub fn half(v: i32) -> (r: i32)
    ensures
        r == half_toward_zero(v),
{
    v / 2
}

/// The name that stands for an I/O pin of the design in a net connection.
pub open spec fn io_pin_keyword() -> Seq<char> {
    seq!['P', 'I', 'N']
}

pub fn is_io_pin_keyword(name: &String) -> (r: bool)
    ensures
        r == (name@ == io_pin_keyword()),
{
    let s = name.as_str();
    if s.unicode_len() != 3 {
        return false;
    }
    let r = s.get_char(0) == 'P' && s.get_char(1) == 'I' && s.get_char(2) == 'N';
    proof {
        if r {
            assert(name@ =~= io_pin_keyword());
        }
    }
    r
}


/// The fixed instance an I/O pin becomes: at `(x, y)`, of size `w` by
/// `h`, turned by `orient`.
#[derive(Copy, Clone, Debug)]
pub struct Terminal<T> {
    pub x: T,
    pub y: T,
    pub w: T,
    pub h: T,
    pub orient: OrientType,
}

/// Instance `i` of `inst` is the terminal `t`: a fixed terminal instance
/// with one pin.
pub open spec fn holds_terminal<T: Numeric>(inst: VecInstances<T>, i: int, t: Terminal<T>) -> bool {
    &&& inst.coords.x@[i] == t.x
    &&& inst.coords.y@[i] == t.y
    &&& inst.sizes.w@[i] == t.w
    &&& inst.sizes.h@[i] == t.h
    &&& inst.types@[i] == InstanceType::TERMINAL
    &&& inst.pl_types@[i] == PlacementType::FIXED
    &&& inst.o_types@[i] == t.orient
    &&& inst.areas@[i] == t.w.mul_spec(t.h)
    &&& inst.num_pins@[i] == T::one_spec()
}

/// `new` is `old` with the terminals `ts` appended to every column: a
/// fixed terminal instance with one pin for each.
pub open spec fn pushed_terminals<T: Numeric>(old: VecInstances<T>, new: VecInstances<T>, ts: Seq<Terminal<T>>) -> bool {
    &&& new.coords.x@ == old.coords.x@ + ts.map_values(|t: Terminal<T>| t.x)
    &&& new.coords.y@ == old.coords.y@ + ts.map_values(|t: Terminal<T>| t.y)
    &&& new.sizes.w@ == old.sizes.w@ + ts.map_values(|t: Terminal<T>| t.w)
    &&& new.sizes.h@ == old.sizes.h@ + ts.map_values(|t: Terminal<T>| t.h)
    &&& new.types@ == old.types@ + ts.map_values(|t: Terminal<T>| InstanceType::TERMINAL)
    &&& new.pl_types@ == old.pl_types@ + ts.map_values(|t: Terminal<T>| PlacementType::FIXED)
    &&& new.o_types@ == old.o_types@ + ts.map_values(|t: Terminal<T>| t.orient)
    &&& new.areas@ == old.areas@ + ts.map_values(|t: Terminal<T>| t.w.mul_spec(t.h))
    &&& new.num_pins@ == old.num_pins@ + ts.map_values(|t: Terminal<T>| T::one_spec())
}

/// What the connection to the I/O pin `pin_name` gives when the design
/// has `n_inst` instances so far: the pin (on a new terminal instance,
/// numbered `n_inst`) and that terminal.
///
/// The pin is the last DEF pin of that name; it must be placed and have a
/// shape.  The terminal sits at the pin's location plus the lower-left
/// corner of its bounding box, and has the size of that box; the pin sits
/// at the middle of the box (its half sizes rounded toward zero as
/// integers), width and height swapped for an orientation turned by a
/// quarter turn.  DEF distances are scaled by `units` times `scale`.
pub open spec fn io_pin_spec<T: Numeric>(
    def: &Def<T>,
    pin_name: String,
    units: T,
    scale: T,
    n_inst: nat,
) -> Result<(RawPin<T>, Terminal<T>), DbError> {
    match last_index(def.pins@, def_pin_named::<T>(pin_name@)) {
        None => Err(DbError::IoPinNotFound(pin_name)),
        Some(k) => {
            let lib = def.pins@[k];
            match lib.placement {
                None => Err(DbError::PlacementNotFound(pin_name)),
                Some(pl) => match lib.bbox {
                    None => Err(DbError::NoPinShape(pin_name)),
                    Some(bb) => {
                        let px = T::from_i32_spec(pl.x).mul_spec(units).mul_spec(scale);
                        let py = T::from_i32_spec(pl.y).mul_spec(units).mul_spec(scale);
                        let half_w = T::from_i32_spec(half_toward_zero(bb.w.trunc_i32_spec()));
                        let half_h = T::from_i32_spec(half_toward_zero(bb.h.trunc_i32_spec()));
                        let inst_x = px.add_spec(bb.xl.mul_spec(units).mul_spec(scale));
                        let inst_y = py.add_spec(bb.yl.mul_spec(units).mul_spec(scale));
                        let pin_coords = if pl.orient.is_rotated_spec() {
                            Coords { x: half_h.mul_spec(units).mul_spec(scale), y: half_w.mul_spec(units).mul_spec(scale) }
                        } else {
                            Coords { x: half_w.mul_spec(units).mul_spec(scale), y: half_h.mul_spec(units).mul_spec(scale) }
                        };
                        let w = bb.w.mul_spec(units).mul_spec(scale);
                        let h = bb.h.mul_spec(units).mul_spec(scale);
                        Ok(
                            (
                                (n_inst as usize, pin_coords, Size { width: w, height: h }),
                                Terminal { x: inst_x, y: inst_y, w, h, orient: pl.orient },
                            ),
                        )
                    },
                },
            }
        },
    }
}

/// Reads a connection to an I/O pin: appends its terminal instance to
/// `instances` and gives the pin.
pub fn parse_io_pin<T: Numeric>(
    def: &Def<T>,
    pin_index: &NameIndex,
    pin_name: &String,
    units: T,
    scale: T,
    instances: &mut VecInstances<T>,
) -> (r: Result<RawPin<T>, DbError>)
    requires
        pin_index.indexes(names_of(def.pins@)),
        old(instances).coords.wf(),
    ensures
        match io_pin_spec(def, *pin_name, units, scale, old(instances).len_spec()) {
            Err(e) => r == Err::<RawPin<T>, DbError>(e) && *final(instances) == *old(instances),
            Ok((pin, t)) => r == Ok::<RawPin<T>, DbError>(pin) && pushed_terminals(*old(instances), *final(instances), seq![t]),
        },
{
    let one = T::one();
    let k = match find_def_pin(pin_index, &def.pins, pin_name) {
        Some(k) => k,
        None => return Err(DbError::IoPinNotFound(pin_name.clone())),
    };
    proof {
        lemma_last_index_found(def.pins@, def_pin_named::<T>(pin_name@));
    }
    let lib = &def.pins[k];
    let pl = match &lib.placement {
        Some(pl) => *pl,
        None => return Err(DbError::PlacementNotFound(pin_name.clone())),
    };
    let px = T::from_i32(pl.x).mul(units).mul(scale);
    let py = T::from_i32(pl.y).mul(units).mul(scale);
    let orient_type = pl.orient;

    let bbox = match &lib.bbox {
        Some(b) => *b,
        None => return Err(DbError::NoPinShape(pin_name.clone())),
    };
    let bbox_w = bbox.w;
    let bbox_h = bbox.h;

    // integer midpoint, rounded toward zero
    let half_w = T::from_i32(half(bbox.w.trunc_i32()));
    let half_h = T::from_i32(half(bbox.h.trunc_i32()));

    let inst_x = px.add(bbox.xl.mul(units).mul(scale));
    let inst_y = py.add(bbox.yl.mul(units).mul(scale));

    let (pin_x, pin_y) = if orient_type.is_rotated() {
        (half_h.mul(units).mul(scale), half_w.mul(units).mul(scale))
    } else {
        (half_w.mul(units).mul(scale), half_h.mul(units).mul(scale))
    };
    let pin_coords = Coords::new(pin_x, pin_y);

    let ghost old_instances = *instances;
    let w = bbox_w.mul(units).mul(scale);
    let h = bbox_h.mul(units).mul(scale);
    let fake_instance_id = instances.push(
        inst_x,
        inst_y,
        w,
        h,
        InstanceType::TERMINAL,
        PlacementType::FIXED,
        orient_type,
        one,
    );
    proof {
        let t = Terminal { x: inst_x, y: inst_y, w, h, orient: orient_type };
        lemma_pushed_one(old_instances, *instances, t);
    }

    let pin_size = Size::new(w, h);
    Ok((fake_instance_id, pin_coords, pin_size))
}

pub open spec fn instance_named<T: Numeric>(name: Seq<char>) -> spec_fn(ParsedInstance<T>) -> bool {
    |p: ParsedInstance<T>| p.name@ == name
}

/// The instance a name refers to: the last one of that name.
pub fn find_instance<T: Numeric>(index: &NameIndex, insts: &Vec<ParsedInstance<T>>, name: &String) -> (r: Option<usize>)
    requires
        index.indexes(names_of(insts@)),
    ensures
        r matches Some(k) ==> last_index(insts@, instance_named::<T>(name@)) == Some(k as int),
        r is None ==> last_index(insts@, instance_named::<T>(name@)) is None,
{
    assert(named::<ParsedInstance<T>>(name@) =~= instance_named::<T>(name@));
    index.find_last(insts, name)
}

/// What the connection to pin `pin_name` of instance `inst_name` gives:
/// the pin on that instance, at the middle of the pin's bounding box in
/// the cell's own frame (no orientation applied), with the size of that
/// box.
///
/// The instance is the last one of that name; its model is the last LEF
/// macro of that name; the pin is the first pin of that name in the
/// macro, and must have a shape.  LEF lengths are scaled by `units` times
/// `lef_scale`.
pub open spec fn node_pin_spec<T: Numeric>(
    lef: &Lef<T>,
    parsed: Seq<ParsedInstance<T>>,
    pin_name: String,
    inst_name: String,
    units: T,
    lef_scale: T,
) -> Result<RawPin<T>, DbError> {
    match last_index(parsed, instance_named::<T>(inst_name@)) {
        None => Err(DbError::InstanceNotFound(inst_name)),
        Some(c) => {
            let cell = parsed[c];
            match last_index(lef.macros@, macro_named::<T>(cell.model@)) {
                None => Err(DbError::ModelNotFound(cell.model)),
                Some(k) => {
                    let lib = lef.macros@[k];
                    match first_index(lib.pins@, lef_pin_named::<T>(pin_name@)) {
                        None => Err(DbError::PinNotFound { pin: pin_name, model: cell.model }),
                        Some(q) => match lib.pins@[q].bbox {
                            None => Err(DbError::NoPinShape(pin_name)),
                            Some(bb) => {
                                let two = T::one_spec().add_spec(T::one_spec());
                                let local_x = bb.xl.add_spec(bb.w.div_spec(two)).mul_spec(units).mul_spec(lef_scale);
                                let local_y = bb.yl.add_spec(bb.h.div_spec(two)).mul_spec(units).mul_spec(lef_scale);
                                Ok(
                                    (
                                        cell.id,
                                        Coords { x: local_x, y: local_y },
                                        Size {
                                            width: bb.w.mul_spec(units).mul_spec(lef_scale),
                                            height: bb.h.mul_spec(units).mul_spec(lef_scale),
                                        },
                                    ),
                                )
                            },
                        },
                    }
                },
            }
        },
    }
}

/// Reads a connection to pin `pin_name` of instance `inst_name`.
pub fn parse_node_pin<T: Numeric>(
    lef: &Lef<T>,
    macro_index: &NameIndex,
    parsed: &Vec<ParsedInstance<T>>,
    inst_index: &NameIndex,
    pin_name: &String,
    inst_name: &String,
    units: T,
    lef_scale: T,
) -> (r: Result<RawPin<T>, DbError>)
    requires
        macro_index.indexes(names_of(lef.macros@)),
        inst_index.indexes(names_of(parsed@)),
    ensures
        r == node_pin_spec(lef, parsed@, *pin_name, *inst_name, units, lef_scale),
{
    let two = T::one().add(T::one());
    let c = match find_instance(inst_index, parsed, inst_name) {
        Some(c) => c,
        None => return Err(DbError::InstanceNotFound(inst_name.clone())),
    };
    proof {
        lemma_last_index_found(parsed@, instance_named::<T>(inst_name@));
    }
    let cell = &parsed[c];
    let model = &cell.model;
    let k = match find_macro(macro_index, &lef.macros, model) {
        Some(k) => k,
        None => return Err(DbError::ModelNotFound(model.clone())),
    };
    proof {
        lemma_last_index_found(lef.macros@, macro_named::<T>(model@));
    }
    let lib = &lef.macros[k];
    let q = match find_lef_pin(&lib.pins, pin_name) {
        Some(q) => q,
        None => return Err(DbError::PinNotFound { pin: pin_name.clone(), model: model.clone() }),
    };
    proof {
        lemma_first_index_found(lib.pins@, lef_pin_named::<T>(pin_name@));
    }
    let bbox = match &lib.pins[q].bbox {
        Some(b) => *b,
        None => return Err(DbError::NoPinShape(pin_name.clone())),
    };
    let bbox_x = bbox.xl;
    let bbox_y = bbox.yl;
    let bbox_w = bbox.w;
    let bbox_h = bbox.h;

    // raw pin center in the cell's own frame (no orientation applied)
    let local_x = bbox_x.add(bbox_w.div(two)).mul(units).mul(lef_scale);
    let local_y = bbox_y.add(bbox_h.div(two)).mul(units).mul(lef_scale);

    let size = Size::new(bbox_w.mul(units).mul(lef_scale), bbox_h.mul(units).mul(lef_scale));
    let coords = Coords::new(local_x, local_y);

    Ok((cell.id, coords, size))
}


/// Appending terminals in two steps appends them all.
pub proof fn lemma_pushed_terminals_trans<T: Numeric>(
    a: VecInstances<T>,
    b: VecInstances<T>,
    c: VecInstances<T>,
    ts1: Seq<Terminal<T>>,
    ts2: Seq<Terminal<T>>,
)
    requires
        pushed_terminals(a, b, ts1),
        pushed_terminals(b, c, ts2),
    ensures
        pushed_terminals(a, c, ts1 + ts2),
{
    let ts = ts1 + ts2;
    assert(ts.map_values(|t: Terminal<T>| t.x) =~= ts1.map_values(|t: Terminal<T>| t.x) + ts2.map_values(|t: Terminal<T>| t.x));
    assert(ts.map_values(|t: Terminal<T>| t.y) =~= ts1.map_values(|t: Terminal<T>| t.y) + ts2.map_values(|t: Terminal<T>| t.y));
    assert(ts.map_values(|t: Terminal<T>| t.w) =~= ts1.map_values(|t: Terminal<T>| t.w) + ts2.map_values(|t: Terminal<T>| t.w));
    assert(ts.map_values(|t: Terminal<T>| t.h) =~= ts1.map_values(|t: Terminal<T>| t.h) + ts2.map_values(|t: Terminal<T>| t.h));
    assert(ts.map_values(|t: Terminal<T>| InstanceType::TERMINAL) =~= ts1.map_values(
        |t: Terminal<T>| InstanceType::TERMINAL,
    ) + ts2.map_values(|t: Terminal<T>| InstanceType::TERMINAL));
    assert(ts.map_values(|t: Terminal<T>| PlacementType::FIXED) =~= ts1.map_values(
        |t: Terminal<T>| PlacementType::FIXED,
    ) + ts2.map_values(|t: Terminal<T>| PlacementType::FIXED));
    assert(ts.map_values(|t: Terminal<T>| t.orient) =~= ts1.map_values(|t: Terminal<T>| t.orient) + ts2.map_values(
        |t: Terminal<T>| t.orient,
    ));
    assert(ts.map_values(|t: Terminal<T>| t.w.mul_spec(t.h)) =~= ts1.map_values(|t: Terminal<T>| t.w.mul_spec(t.h))
        + ts2.map_values(|t: Terminal<T>| t.w.mul_spec(t.h)));
    assert(ts.map_values(|t: Terminal<T>| T::one_spec()) =~= ts1.map_values(|t: Terminal<T>| T::one_spec())
        + ts2.map_values(|t: Terminal<T>| T::one_spec()));
    assert(c.coords.x@ =~= a.coords.x@ + ts.map_values(|t: Terminal<T>| t.x));
    assert(c.coords.y@ =~= a.coords.y@ + ts.map_values(|t: Terminal<T>| t.y));
    assert(c.sizes.w@ =~= a.sizes.w@ + ts.map_values(|t: Terminal<T>| t.w));
    assert(c.sizes.h@ =~= a.sizes.h@ + ts.map_values(|t: Terminal<T>| t.h));
    assert(c.types@ =~= a.types@ + ts.map_values(|t: Terminal<T>| InstanceType::TERMINAL));
    assert(c.pl_types@ =~= a.pl_types@ + ts.map_values(|t: Terminal<T>| PlacementType::FIXED));
    assert(c.o_types@ =~= a.o_types@ + ts.map_values(|t: Terminal<T>| t.orient));
    assert(c.areas@ =~= a.areas@ + ts.map_values(|t: Terminal<T>| t.w.mul_spec(t.h)));
    assert(c.num_pins@ =~= a.num_pins@ + ts.map_values(|t: Terminal<T>| T::one_spec()));
}

/// Appending no terminal changes nothing.
pub proof fn lemma_pushed_no_terminal<T: Numeric>(a: VecInstances<T>)
    ensures
        pushed_terminals(a, a, Seq::empty()),
{
    let ts = Seq::<Terminal<T>>::empty();
    assert(a.coords.x@ =~= a.coords.x@ + ts.map_values(|t: Terminal<T>| t.x));
    assert(a.coords.y@ =~= a.coords.y@ + ts.map_values(|t: Terminal<T>| t.y));
    assert(a.sizes.w@ =~= a.sizes.w@ + ts.map_values(|t: Terminal<T>| t.w));
    assert(a.sizes.h@ =~= a.sizes.h@ + ts.map_values(|t: Terminal<T>| t.h));
    assert(a.types@ =~= a.types@ + ts.map_values(|t: Terminal<T>| InstanceType::TERMINAL));
    assert(a.pl_types@ =~= a.pl_types@ + ts.map_values(|t: Terminal<T>| PlacementType::FIXED));
    assert(a.o_types@ =~= a.o_types@ + ts.map_values(|t: Terminal<T>| t.orient));
    assert(a.areas@ =~= a.areas@ + ts.map_values(|t: Terminal<T>| t.w.mul_spec(t.h)));
    assert(a.num_pins@ =~= a.num_pins@ + ts.map_values(|t: Terminal<T>| T::one_spec()));
}

/// Pushing one terminal's instance appends that terminal.
proof fn lemma_pushed_one<T: Numeric>(a: VecInstances<T>, b: VecInstances<T>, t: Terminal<T>)
    requires
        b.coords.x@ == a.coords.x@.push(t.x),
        b.coords.y@ == a.coords.y@.push(t.y),
        b.sizes.w@ == a.sizes.w@.push(t.w),
        b.sizes.h@ == a.sizes.h@.push(t.h),
        b.types@ == a.types@.push(InstanceType::TERMINAL),
        b.pl_types@ == a.pl_types@.push(PlacementType::FIXED),
        b.o_types@ == a.o_types@.push(t.orient),
        b.areas@ == a.areas@.push(t.w.mul_spec(t.h)),
        b.num_pins@ == a.num_pins@.push(T::one_spec()),
    ensures
        pushed_terminals(a, b, seq![t]),
{
    let ts = seq![t];
    assert(b.coords.x@ =~= a.coords.x@ + ts.map_values(|t: Terminal<T>| t.x));
    assert(b.coords.y@ =~= a.coords.y@ + ts.map_values(|t: Terminal<T>| t.y));
    assert(b.sizes.w@ =~= a.sizes.w@ + ts.map_values(|t: Terminal<T>| t.w));
    assert(b.sizes.h@ =~= a.sizes.h@ + ts.map_values(|t: Terminal<T>| t.h));
    assert(b.types@ =~= a.types@ + ts.map_values(|t: Terminal<T>| InstanceType::TERMINAL));
    assert(b.pl_types@ =~= a.pl_types@ + ts.map_values(|t: Terminal<T>| PlacementType::FIXED));
    assert(b.o_types@ =~= a.o_types@ + ts.map_values(|t: Terminal<T>| t.orient));
    assert(b.areas@ =~= a.areas@ + ts.map_values(|t: Terminal<T>| t.w.mul_spec(t.h)));
    assert(b.num_pins@ =~= a.num_pins@ + ts.map_values(|t: Terminal<T>| T::one_spec()));
}

/// Reading the connections `conns` of a net in order, when the design has
/// `n0` instances before: the pins read, the terminals added, and the
/// error that stopped the reading, if any.
pub open spec fn net_pins_spec<T: Numeric>(
    lef: &Lef<T>,
    def: &Def<T>,
    parsed: Seq<ParsedInstance<T>>,
    conns: Seq<(String, String)>,
    units: T,
    scale: T,
    lef_scale: T,
    n0: nat,
) -> (Seq<RawPin<T>>, Seq<Terminal<T>>, Option<DbError>)
    decreases conns.len(),
{
    if conns.len() == 0 {
        (Seq::empty(), Seq::empty(), None)
    } else {
        let prev = net_pins_spec(lef, def, parsed, conns.drop_last(), units, scale, lef_scale, n0);
        if prev.2 is Some {
            prev
        } else {
            let conn = conns.last();
            if conn.0@ == io_pin_keyword() {
                match io_pin_spec(def, conn.1, units, scale, n0 + prev.1.len()) {
                    Err(e) => (prev.0, prev.1, Some(e)),
                    Ok((pin, t)) => (prev.0.push(pin), prev.1.push(t), None),
                }
            } else {
                match node_pin_spec(lef, parsed, conn.1, conn.0, units, lef_scale) {
                    Err(e) => (prev.0, prev.1, Some(e)),
                    Ok(pin) => (prev.0.push(pin), prev.1, None),
                }
            }
        }
    }
}

proof fn lemma_net_pins_settled<T: Numeric>(
    lef: &Lef<T>,
    def: &Def<T>,
    parsed: Seq<ParsedInstance<T>>,
    conns: Seq<(String, String)>,
    units: T,
    scale: T,
    lef_scale: T,
    n0: nat,
    k: int,
)
    requires
        0 <= k <= conns.len(),
        net_pins_spec(lef, def, parsed, conns.take(k), units, scale, lef_scale, n0).2 is Some,
    ensures
        net_pins_spec(lef, def, parsed, conns, units, scale, lef_scale, n0)
            == net_pins_spec(lef, def, parsed, conns.take(k), units, scale, lef_scale, n0),
    decreases conns.len() - k,
{
    if k == conns.len() {
        assert(conns.take(k) =~= conns);
    } else {
        assert(conns.drop_last().take(k) =~= conns.take(k));
        lemma_net_pins_settled(lef, def, parsed, conns.drop_last(), units, scale, lef_scale, n0, k);
    }
}

/// The nets read so far, sorted by their number of pins, the terminals
/// added, and the error that stopped the reading, if any.
pub struct NetsOutcome<T> {
    pub terminals: Seq<Terminal<T>>,
    pub nets2: Seq<Seq<RawPin<T>>>,
    pub nets3: Seq<Seq<RawPin<T>>>,
    pub netsn: Seq<Seq<RawPin<T>>>,
    pub error: Option<DbError>,
}

/// How many connections a net lists.
pub open spec fn connection_count(net: DefNet) -> int {
    match net.connections {
        Some(c) => c@.len() as int,
        None => 0,
    }
}

/// Files the pins of one net with the nets of its size: 2 pins, 3 pins,
/// or more.  A net of fewer than 2 pins is dropped.
pub open spec fn file_net<T>(
    nets2: Seq<Seq<RawPin<T>>>,
    nets3: Seq<Seq<RawPin<T>>>,
    netsn: Seq<Seq<RawPin<T>>>,
    pins: Seq<RawPin<T>>,
) -> (Seq<Seq<RawPin<T>>>, Seq<Seq<RawPin<T>>>, Seq<Seq<RawPin<T>>>) {
    if pins.len() == 2 {
        (nets2.push(pins), nets3, netsn)
    } else if pins.len() == 3 {
        (nets2, nets3.push(pins), netsn)
    } else if pins.len() > 3 {
        (nets2, nets3, netsn.push(pins))
    } else {
        (nets2, nets3, netsn)
    }
}

/// What reading one net adds: its pins and terminals, or the error.
pub open spec fn net_spec<T: Numeric>(
    lef: &Lef<T>,
    def: &Def<T>,
    parsed: Seq<ParsedInstance<T>>,
    net: DefNet,
    units: T,
    scale: T,
    lef_scale: T,
    n0: nat,
) -> (Seq<RawPin<T>>, Seq<Terminal<T>>, Option<DbError>) {
    match net.connections {
        None => (Seq::empty(), Seq::empty(), None),
        Some(conns) => net_pins_spec(lef, def, parsed, conns@, units, scale, lef_scale, n0),
    }
}

/// Reading the nets `nets` in order, when the design has `n0` instances
/// before; the first error ends it.
pub open spec fn nets_outcome<T: Numeric>(
    lef: &Lef<T>,
    def: &Def<T>,
    parsed: Seq<ParsedInstance<T>>,
    nets: Seq<DefNet>,
    units: T,
    scale: T,
    lef_scale: T,
    n0: nat,
) -> NetsOutcome<T>
    decreases nets.len(),
{
    if nets.len() == 0 {
        NetsOutcome {
            terminals: Seq::empty(),
            nets2: Seq::empty(),
            nets3: Seq::empty(),
            netsn: Seq::empty(),
            error: None,
        }
    } else {
        let prev = nets_outcome(lef, def, parsed, nets.drop_last(), units, scale, lef_scale, n0);
        if prev.error is Some {
            prev
        } else {
            let one = net_spec(lef, def, parsed, nets.last(), units, scale, lef_scale, n0 + prev.terminals.len());
            let terminals = prev.terminals + one.1;
            if one.2 is Some {
                NetsOutcome { terminals, nets2: prev.nets2, nets3: prev.nets3, netsn: prev.netsn, error: one.2 }
            } else {
                let filed = file_net(prev.nets2, prev.nets3, prev.netsn, one.0);
                NetsOutcome { terminals, nets2: filed.0, nets3: filed.1, netsn: filed.2, error: None }
            }
        }
    }
}

/// How reading the nets of a design ends, when the design has `n0`
/// instances before.
pub open spec fn parse_nets_spec<T: Numeric>(
    lef: &Lef<T>,
    def: &Def<T>,
    parsed: Seq<ParsedInstance<T>>,
    scale: T,
    n0: nat,
) -> NetsOutcome<T> {
    let empty = NetsOutcome {
        terminals: Seq::empty(),
        nets2: Seq::empty(),
        nets3: Seq::empty(),
        netsn: Seq::empty(),
        error: None,
    };
    match lef_def_units_spec(lef, def) {
        Err(e) => NetsOutcome { error: Some(e), ..empty },
        Ok(units) => match lef_scale_spec(lef, scale) {
            Err(e) => NetsOutcome { error: Some(e), ..empty },
            Ok(lef_scale) => match def.nets {
                None => empty,
                Some(nets) => nets_outcome(lef, def, parsed, nets@, units, scale, lef_scale, n0),
            },
        },
    }
}

proof fn lemma_nets_settled<T: Numeric>(
    lef: &Lef<T>,
    def: &Def<T>,
    parsed: Seq<ParsedInstance<T>>,
    nets: Seq<DefNet>,
    units: T,
    scale: T,
    lef_scale: T,
    n0: nat,
    k: int,
)
    requires
        0 <= k <= nets.len(),
        nets_outcome(lef, def, parsed, nets.take(k), units, scale, lef_scale, n0).error is Some,
    ensures
        nets_outcome(lef, def, parsed, nets, units, scale, lef_scale, n0)
            == nets_outcome(lef, def, parsed, nets.take(k), units, scale, lef_scale, n0),
    decreases nets.len() - k,
{
    if k == nets.len() {
        assert(nets.take(k) =~= nets);
    } else {
        assert(nets.drop_last().take(k) =~= nets.take(k));
        lemma_nets_settled(lef, def, parsed, nets.drop_last(), units, scale, lef_scale, n0, k);
    }
}

/// Reads one net: reads its connections (appending a terminal instance
/// for each I/O pin) and files its pins with the nets of its size.
#[allow(clippy::too_many_arguments)]
pub fn parse_net<T: Numeric>(
    lef: &Lef<T>,
    macro_index: &NameIndex,
    def: &Def<T>,
    pin_index: &NameIndex,
    parsed: &Vec<ParsedInstance<T>>,
    inst_index: &NameIndex,
    net: &DefNet,
    units: T,
    scale: T,
    lef_scale: T,
    instances: &mut VecInstances<T>,
    temp_2nets: &mut Vec<Vec<RawPin<T>>>,
    temp_3nets: &mut Vec<Vec<RawPin<T>>>,
    temp_nnets: &mut Vec<Vec<RawPin<T>>>,
) -> (r: Result<(), DbError>)
    requires
        macro_index.indexes(names_of(lef.macros@)),
        pin_index.indexes(names_of(def.pins@)),
        inst_index.indexes(names_of(parsed@)),
        old(instances).coords.wf(),
    ensures
        ({
            let out = net_spec(lef, def, parsed@, *net, units, scale, lef_scale, old(instances).len_spec());
            &&& pushed_terminals(*old(instances), *final(instances), out.1)
            &&& match out.2 {
                Some(e) => {
                    &&& r == Err::<(), DbError>(e)
                    &&& final(temp_2nets)@ == old(temp_2nets)@
                    &&& final(temp_3nets)@ == old(temp_3nets)@
                    &&& final(temp_nnets)@ == old(temp_nnets)@
                },
                None => {
                    let filed = file_net(
                        nets_view(old(temp_2nets)@),
                        nets_view(old(temp_3nets)@),
                        nets_view(old(temp_nnets)@),
                        out.0,
                    );
                    &&& r == Ok::<(), DbError>(())
                    &&& nets_view(final(temp_2nets)@) == filed.0
                    &&& nets_view(final(temp_3nets)@) == filed.1
                    &&& nets_view(final(temp_nnets)@) == filed.2
                },
            }
        }),
        r is Ok ==> {
            let k = connection_count(*net);
            &&& final(temp_2nets)@.len() == old(temp_2nets)@.len() + if k == 2 { 1int } else { 0int }
            &&& final(temp_3nets)@.len() == old(temp_3nets)@.len() + if k == 3 { 1int } else { 0int }
            &&& final(temp_nnets)@.len() == old(temp_nnets)@.len() + if k > 3 { 1int } else { 0int }
            &&& k == 2 ==> final(temp_2nets)@.last()@.len() == 2
            &&& k == 3 ==> final(temp_3nets)@.last()@.len() == 3
            &&& k > 3 ==> final(temp_nnets)@.last()@.len() == k
        },
{
    let ghost n0 = instances.len_spec();
    let ghost inst0 = *instances;
    proof {
        lemma_pushed_no_terminal(inst0);
    }
    let conns = match &net.connections {
        Some(c) => c,
        None => return Ok(()),
    };
    let mut pins: Vec<RawPin<T>> = Vec::new();
    let ghost mut terms: Seq<Terminal<T>> = Seq::empty();
    let mut i: usize = 0;
    assert(conns@.take(0) =~= Seq::<(String, String)>::empty());
    while i < conns.len()
        invariant
            i <= conns@.len(),
            n0 == inst0.len_spec(),
            inst0 == *old(instances),
            inst0.coords.wf(),
            macro_index.indexes(names_of(lef.macros@)),
            pin_index.indexes(names_of(def.pins@)),
            inst_index.indexes(names_of(parsed@)),
            net.connections == Some(*conns),
            net_pins_spec(lef, def, parsed@, conns@.take(i as int), units, scale, lef_scale, n0)
                == (pins@, terms, None::<DbError>),
            pushed_terminals(inst0, *instances, terms),
            instances.coords.wf(),
            instances.len_spec() == n0 + terms.len(),
            pins@.len() == i,
            temp_2nets@ == old(temp_2nets)@,
            temp_3nets@ == old(temp_3nets)@,
            temp_nnets@ == old(temp_nnets)@,
        decreases conns@.len() - i,
    {
        proof {
            assert(conns@.take(i + 1).drop_last() =~= conns@.take(i as int));
            assert(conns@.take(i + 1).last() == conns@[i as int]);
        }
        let inst_name = &conns[i].0;
        let pin_name = &conns[i].1;
        let ghost before = *instances;
        if is_io_pin_keyword(inst_name) {
            match parse_io_pin(def, pin_index, pin_name, units, scale, instances) {
                Ok(pin) => {
                    proof {
                        let t = io_pin_spec(def, *pin_name, units, scale, before.len_spec())->Ok_0.1;
                        lemma_pushed_terminals_trans(inst0, before, *instances, terms, seq![t]);
                        assert(terms.push(t) =~= terms + seq![t]);
                        terms = terms.push(t);
                    }
                    pins.push(pin);
                },
                Err(e) => {
                    proof {
                        lemma_net_pins_settled(lef, def, parsed@, conns@, units, scale, lef_scale, n0, i + 1);
                    }
                    return Err(e);
                },
            }
        } else {
            match parse_node_pin(lef, macro_index, parsed, inst_index, pin_name, inst_name, units, lef_scale) {
                Ok(pin) => {
                    pins.push(pin);
                },
                Err(e) => {
                    proof {
                        lemma_net_pins_settled(lef, def, parsed@, conns@, units, scale, lef_scale, n0, i + 1);
                    }
                    return Err(e);
                },
            }
        }
        i = i + 1;
    }
    proof {
        assert(conns@.take(i as int) =~= conns@);
    }
    let n = pins.len();
    let ghost pv = pins@;
    if n == 0 || n == 1 {
        // not a valid net
    } else if n == 2 {
        temp_2nets.push(pins);
        assert(nets_view(temp_2nets@) =~= nets_view(old(temp_2nets)@).push(pv));
    } else if n == 3 {
        temp_3nets.push(pins);
        assert(nets_view(temp_3nets@) =~= nets_view(old(temp_3nets)@).push(pv));
    } else {
        temp_nnets.push(pins);
        assert(nets_view(temp_nnets@) =~= nets_view(old(temp_nnets)@).push(pv));
    }
    Ok(())
}

/// Reads the nets of a design, in file order, appending a terminal
/// instance to `instances` for each connection to an I/O pin.  Gives the
/// nets of 2 pins, of 3 pins and of more pins, each in file order.
pub fn parse_nets<T: Numeric>(
    lef: &Lef<T>,
    def: &Def<T>,
    parsed: &Vec<ParsedInstance<T>>,
    instances: &mut VecInstances<T>,
    scale: T,
) -> (r: Result<(Vec<Vec<RawPin<T>>>, Vec<Vec<RawPin<T>>>, Vec<Vec<RawPin<T>>>), DbError>)
    requires
        old(instances).coords.wf(),
    ensures
        ({
            let out = parse_nets_spec(lef, def, parsed@, scale, old(instances).len_spec());
            &&& pushed_terminals(*old(instances), *final(instances), out.terminals)
            &&& match out.error {
                Some(e) => r == Err::<(Vec<Vec<RawPin<T>>>, Vec<Vec<RawPin<T>>>, Vec<Vec<RawPin<T>>>), DbError>(e),
                None => r matches Ok((t2, t3, tn)) && {
                    &&& nets_view(t2@) == out.nets2
                    &&& nets_view(t3@) == out.nets3
                    &&& nets_view(tn@) == out.netsn
                },
            }
        }),
{
    let ghost n0 = instances.len_spec();
    let ghost inst0 = *instances;
    proof {
        lemma_pushed_no_terminal(inst0);
    }
    let units = match get_lef_def_units(lef, def) {
        Ok(u) => u,
        Err(e) => return Err(e),
    };
    let lef_scale = match get_lef_scale(lef, scale) {
        Ok(s) => s,
        Err(e) => return Err(e),
    };

    // temporary: pin numbers follow the final order (2-nets, 3-nets, n-nets)
    let mut temp_2nets: Vec<Vec<RawPin<T>>> = Vec::new();
    let mut temp_3nets: Vec<Vec<RawPin<T>>> = Vec::new();
    let mut temp_nnets: Vec<Vec<RawPin<T>>> = Vec::new();
    proof {
        assert(nets_view(temp_2nets@) =~= Seq::<Seq<RawPin<T>>>::empty());
        assert(nets_view(temp_3nets@) =~= Seq::<Seq<RawPin<T>>>::empty());
        assert(nets_view(temp_nnets@) =~= Seq::<Seq<RawPin<T>>>::empty());
    }

    let def_nets = match &def.nets {
        Some(n) => n,
        None => return Ok((temp_2nets, temp_3nets, temp_nnets)),
    };
    // each name is looked up by hash rather than by a scan per connection
    let macro_index = NameIndex::build(&lef.macros);
    let pin_index = NameIndex::build(&def.pins);
    let inst_index = NameIndex::build(parsed);
    let mut i: usize = 0;
    assert(def_nets@.take(0) =~= Seq::<DefNet>::empty());
    while i < def_nets.len()
        invariant
            i <= def_nets@.len(),
            n0 == inst0.len_spec(),
            inst0 == *old(instances),
            inst0.coords.wf(),
            def.nets == Some(*def_nets),
            macro_index.indexes(names_of(lef.macros@)),
            pin_index.indexes(names_of(def.pins@)),
            inst_index.indexes(names_of(parsed@)),
            parse_nets_spec(lef, def, parsed@, scale, n0) == nets_outcome(lef, def, parsed@, def_nets@, units, scale, lef_scale, n0),
            ({
                let out = nets_outcome(lef, def, parsed@, def_nets@.take(i as int), units, scale, lef_scale, n0);
                &&& out.error is None
                &&& pushed_terminals(inst0, *instances, out.terminals)
                &&& nets_view(temp_2nets@) == out.nets2
                &&& nets_view(temp_3nets@) == out.nets3
                &&& nets_view(temp_nnets@) == out.netsn
            }),
            instances.coords.wf(),
        decreases def_nets@.len() - i,
    {
        proof {
            assert(def_nets@.take(i + 1).drop_last() =~= def_nets@.take(i as int));
            assert(def_nets@.take(i + 1).last() == def_nets@[i as int]);
        }
        let ghost before = *instances;
        let ghost prev = nets_outcome(lef, def, parsed@, def_nets@.take(i as int), units, scale, lef_scale, n0);
        let res = parse_net(
            lef,
            &macro_index,
            def,
            &pin_index,
            parsed,
            &inst_index,
            &def_nets[i],
            units,
            scale,
            lef_scale,
            instances,
            &mut temp_2nets,
            &mut temp_3nets,
            &mut temp_nnets,
        );
        proof {
            let one = net_spec(lef, def, parsed@, def_nets@[i as int], units, scale, lef_scale, before.len_spec());
            lemma_pushed_terminals_trans(inst0, before, *instances, prev.terminals, one.1);
        }
        match res {
            Ok(()) => {},
            Err(e) => {
                proof {
                    lemma_nets_settled(lef, def, parsed@, def_nets@, units, scale, lef_scale, n0, i + 1);
                }
                return Err(e);
            },
        }
        i = i + 1;
    }
    proof {
        assert(def_nets@.take(i as int) =~= def_nets@);
    }
    Ok((temp_2nets, temp_3nets, temp_nnets))
}

} // verus!
