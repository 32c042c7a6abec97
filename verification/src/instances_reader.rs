use vstd::prelude::*;

use crate::columns::{VecCoords, VecSizes};
use crate::geometry::{Coords, DieArea, Size};
use crate::instances::VecInstances;
use crate::kinds::{InstanceType, OrientType, PlacementType};
use crate::lefdef::{DbError, DefComponent, Def, Lef};
use crate::lookup::{find_macro, last_index, lemma_last_index_found, macro_named};
use crate::name_index::{NameIndex, Named, names_of};
use crate::numeric::Numeric;
use crate::units::{get_lef_def_units, get_lef_scale, lef_def_units_spec, lef_scale_spec};

verus! {

/// An instance as read from a DEF component, before it is given its final
/// ID.
#[derive(Debug)]
pub struct ParsedInstance<T: Numeric> {
    /// ID of the instance.
    pub id: usize,
    pub name: String,
    pub model: String,
    pub instance_type: InstanceType,
    pub placement_type: PlacementType,
    pub orient_type: OrientType,
    /// Initial coordinates.
    pub coords: Coords<T>,
    /// Offset from the initial coordinates.
    pub offset: Coords<T>,
    /// Size of the instance (as its LEF macro defines it).
    pub size: Size<T>,
}

impl<T: Numeric> Named for ParsedInstance<T> {
    open spec fn name_view(&self) -> Seq<char> {
        self.name@
    }

    fn name_ref(&self) -> (r: &String) {
        &self.name
    }
}

impl<T: Numeric> ParsedInstance<T> {
    #[allow(clippy::too_many_arguments)]
    pub fn new(
        id: usize,
        name: String,
        model: String,
        instance_type: InstanceType,
        placement_type: PlacementType,
        orient_type: OrientType,
        coords: Coords<T>,
        offset: Coords<T>,
        size: Size<T>,
    ) -> (r: Self)
        ensures
            r == (ParsedInstance {
                id,
                name,
                model,
                instance_type,
                placement_type,
                orient_type,
                coords,
                offset,
                size,
            }),
    {
        Self { id, name, model, instance_type, placement_type, orient_type, coords, offset, size }
    }

    pub fn update_id(&mut self, id: usize)
        ensures
            *final(self) == (ParsedInstance { id, ..*old(self) }),
    {
        self.id = id;
    }
}

/// The same instance with another ID.
pub open spec fn with_id<T: Numeric>(p: ParsedInstance<T>, id: usize) -> ParsedInstance<T> {
    ParsedInstance { id, ..p }
}

/// What a DEF component becomes: the instance (with ID 0) and its number
/// of pins, or why it cannot be read.
///
/// Its macro is the last LEF macro named after its model; the macro must
/// give a size.  Sizes are LEF lengths times `units` times `lef_scale`;
/// coordinates are DEF distances times `units` times `scale`.
pub open spec fn component_spec<T: Numeric>(
    lef: &Lef<T>,
    comp: DefComponent,
    units: T,
    scale: T,
    lef_scale: T,
) -> Result<(ParsedInstance<T>, T), DbError> {
    match last_index(lef.macros@, macro_named::<T>(comp.model@)) {
        None => Err(DbError::ModelNotFound(comp.model)),
        Some(k) => {
            let lib = lef.macros@[k];
            match lib.size {
                None => Err(DbError::SizeNotFound),
                Some(sz) => {
                    let zero = T::zero_spec();
                    let size = Size {
                        width: sz.width.mul_spec(units).mul_spec(lef_scale),
                        height: sz.height.mul_spec(units).mul_spec(lef_scale),
                    };
                    let coords = match comp.placement {
                        Some(p) => Coords {
                            x: T::from_i32_spec(p.x).mul_spec(units).mul_spec(scale),
                            y: T::from_i32_spec(p.y).mul_spec(units).mul_spec(scale),
                        },
                        None => Coords { x: zero, y: zero },
                    };
                    let orient = match comp.placement {
                        Some(p) => p.orient,
                        None => OrientType::N,
                    };
                    Ok(
                        (
                            ParsedInstance {
                                id: 0,
                                name: comp.name,
                                model: comp.model,
                                instance_type: if lib.is_macro {
                                    InstanceType::MACRO
                                } else {
                                    InstanceType::STDCELL
                                },
                                placement_type: if comp.fixed {
                                    PlacementType::FIXED
                                } else {
                                    PlacementType::MOVABLE
                                },
                                orient_type: orient,
                                coords,
                                offset: Coords { x: zero, y: zero },
                                size,
                            },
                            T::from_usize_spec(lib.pins@.len() as usize),
                        ),
                    )
                },
            }
        },
    }
}

/// A placed component whose coordinates are not both at least zero: the
/// reader refuses it (a negative coordinate aborts the reading).
pub open spec fn negative_placement<T: Numeric>(comp: DefComponent, inst: ParsedInstance<T>) -> bool {
    &&& comp.placement is Some
    &&& !(T::zero_spec().le_spec(inst.coords.x) && T::zero_spec().le_spec(inst.coords.y))
}

/// How reading components ends: with all their records, with an error,
/// or aborted at a component with a negative coordinate.
pub enum ComponentsOutcome<T: Numeric> {
    Done(Seq<(ParsedInstance<T>, T)>),
    Failed(DbError),
    Aborted(int),
}

/// Reading the components `comps` in order; the first error or abort
/// ends it.
pub open spec fn components_outcome<T: Numeric>(
    lef: &Lef<T>,
    comps: Seq<DefComponent>,
    units: T,
    scale: T,
    lef_scale: T,
) -> ComponentsOutcome<T>
    decreases comps.len(),
{
    if comps.len() == 0 {
        ComponentsOutcome::Done(Seq::empty())
    } else {
        match components_outcome(lef, comps.drop_last(), units, scale, lef_scale) {
            ComponentsOutcome::Done(recs) => match component_spec(lef, comps.last(), units, scale, lef_scale) {
                Err(e) => ComponentsOutcome::Failed(e),
                Ok(rec) => if negative_placement(comps.last(), rec.0) {
                    ComponentsOutcome::Aborted(comps.len() - 1)
                } else {
                    ComponentsOutcome::Done(recs.push(rec))
                },
            },
            other => other,
        }
    }
}

/// How reading the instances of a design ends.
pub open spec fn read_instances_spec<T: Numeric>(lef: &Lef<T>, def: &Def<T>, scale: T) -> ComponentsOutcome<T> {
    match lef_def_units_spec(lef, def) {
        Err(e) => ComponentsOutcome::Failed(e),
        Ok(units) => match lef_scale_spec(lef, scale) {
            Err(e) => ComponentsOutcome::Failed(e),
            Ok(lef_scale) => match def.components {
                None => ComponentsOutcome::Done(Seq::empty()),
                Some(comps) => components_outcome(lef, comps@, units, scale, lef_scale),
            },
        },
    }
}

pub open spec fn is_movable_record<T: Numeric>() -> spec_fn((ParsedInstance<T>, T)) -> bool {
    |r: (ParsedInstance<T>, T)| r.0.placement_type == PlacementType::MOVABLE
}

pub open spec fn is_fixed_record<T: Numeric>() -> spec_fn((ParsedInstance<T>, T)) -> bool {
    |r: (ParsedInstance<T>, T)| r.0.placement_type == PlacementType::FIXED
}

/// The records in database order: the movable ones, then the fixed ones,
/// each group in file order.
pub open spec fn database_order<T: Numeric>(recs: Seq<(ParsedInstance<T>, T)>) -> Seq<(ParsedInstance<T>, T)> {
    recs.filter(is_movable_record::<T>()) + recs.filter(is_fixed_record::<T>())
}

/// The columns of `inst` hold the records `recs`, in order.
pub open spec fn columns_hold<T: Numeric>(inst: VecInstances<T>, recs: Seq<(ParsedInstance<T>, T)>) -> bool {
    &&& inst.wf()
    &&& inst.len_spec() == recs.len()
    &&& forall|j: int|
        0 <= j < recs.len() ==> {
            &&& #[trigger] inst.coords.x@[j] == recs[j].0.coords.x
            &&& inst.coords.y@[j] == recs[j].0.coords.y
            &&& inst.sizes.w@[j] == recs[j].0.size.width
            &&& inst.sizes.h@[j] == recs[j].0.size.height
            &&& inst.types@[j] == recs[j].0.instance_type
            &&& inst.pl_types@[j] == recs[j].0.placement_type
            &&& inst.o_types@[j] == recs[j].0.orient_type
            &&& inst.areas@[j] == recs[j].0.size.width.mul_spec(recs[j].0.size.height)
            &&& inst.num_pins@[j] == recs[j].1
        }
}

/// The parsed instances `parsed` are the records `recs`, numbered from
/// `first_id` on.
pub open spec fn parsed_hold<T: Numeric>(
    parsed: Seq<ParsedInstance<T>>,
    recs: Seq<(ParsedInstance<T>, T)>,
    first_id: int,
) -> bool {
    &&& parsed.len() == recs.len()
    &&& forall|j: int| 0 <= j < recs.len() ==> #[trigger] parsed[j] == with_id(recs[j].0, (first_id + j) as usize)
}


/// Appending a record to columns that hold `recs` gives columns that hold
/// `recs` and the record.
proof fn lemma_columns_push<T: Numeric>(
    old_cols: VecInstances<T>,
    new_cols: VecInstances<T>,
    recs: Seq<(ParsedInstance<T>, T)>,
    rec: (ParsedInstance<T>, T),
)
    requires
        columns_hold(old_cols, recs),
        new_cols.wf(),
        new_cols.coords.x@ == old_cols.coords.x@.push(rec.0.coords.x),
        new_cols.coords.y@ == old_cols.coords.y@.push(rec.0.coords.y),
        new_cols.sizes.w@ == old_cols.sizes.w@.push(rec.0.size.width),
        new_cols.sizes.h@ == old_cols.sizes.h@.push(rec.0.size.height),
        new_cols.types@ == old_cols.types@.push(rec.0.instance_type),
        new_cols.pl_types@ == old_cols.pl_types@.push(rec.0.placement_type),
        new_cols.o_types@ == old_cols.o_types@.push(rec.0.orient_type),
        new_cols.areas@ == old_cols.areas@.push(rec.0.size.width.mul_spec(rec.0.size.height)),
        new_cols.num_pins@ == old_cols.num_pins@.push(rec.1),
    ensures
        columns_hold(new_cols, recs.push(rec)),
{
    let nr = recs.push(rec);
    assert forall|j: int| 0 <= j < nr.len() implies #[trigger] new_cols.coords.x@[j] == nr[j].0.coords.x && {
        &&& new_cols.coords.y@[j] == nr[j].0.coords.y
        &&& new_cols.sizes.w@[j] == nr[j].0.size.width
        &&& new_cols.sizes.h@[j] == nr[j].0.size.height
        &&& new_cols.types@[j] == nr[j].0.instance_type
        &&& new_cols.pl_types@[j] == nr[j].0.placement_type
        &&& new_cols.o_types@[j] == nr[j].0.orient_type
        &&& new_cols.areas@[j] == nr[j].0.size.width.mul_spec(nr[j].0.size.height)
        &&& new_cols.num_pins@[j] == nr[j].1
    } by {
        if j < recs.len() {
            assert(old_cols.coords.x@[j] == recs[j].0.coords.x);
        }
    }
}

/// Columns that hold `ra` followed by columns that hold `rb` hold `ra + rb`.
proof fn lemma_columns_append<T: Numeric>(
    a: VecInstances<T>,
    b: VecInstances<T>,
    c: VecInstances<T>,
    ra: Seq<(ParsedInstance<T>, T)>,
    rb: Seq<(ParsedInstance<T>, T)>,
)
    requires
        columns_hold(a, ra),
        columns_hold(b, rb),
        c.coords.x@ == a.coords.x@ + b.coords.x@,
        c.coords.y@ == a.coords.y@ + b.coords.y@,
        c.sizes.w@ == a.sizes.w@ + b.sizes.w@,
        c.sizes.h@ == a.sizes.h@ + b.sizes.h@,
        c.types@ == a.types@ + b.types@,
        c.pl_types@ == a.pl_types@ + b.pl_types@,
        c.o_types@ == a.o_types@ + b.o_types@,
        c.areas@ == a.areas@ + b.areas@,
        c.num_pins@ == a.num_pins@ + b.num_pins@,
    ensures
        columns_hold(c, ra + rb),
{
    let rc = ra + rb;
    assert forall|j: int| 0 <= j < rc.len() implies #[trigger] c.coords.x@[j] == rc[j].0.coords.x && {
        &&& c.coords.y@[j] == rc[j].0.coords.y
        &&& c.sizes.w@[j] == rc[j].0.size.width
        &&& c.sizes.h@[j] == rc[j].0.size.height
        &&& c.types@[j] == rc[j].0.instance_type
        &&& c.pl_types@[j] == rc[j].0.placement_type
        &&& c.o_types@[j] == rc[j].0.orient_type
        &&& c.areas@[j] == rc[j].0.size.width.mul_spec(rc[j].0.size.height)
        &&& c.num_pins@[j] == rc[j].1
    } by {
        if j < ra.len() {
            assert(a.coords.x@[j] == ra[j].0.coords.x);
        } else {
            assert(b.coords.x@[j - ra.len()] == rb[j - ra.len()].0.coords.x);
        }
    }
}

/// Reads one DEF component.
pub fn read_component<T: Numeric>(
    lef: &Lef<T>,
    macro_index: &NameIndex,
    comp: &DefComponent,
    units: T,
    scale: T,
    lef_scale: T,
) -> (r: Result<(ParsedInstance<T>, T), DbError>)
    requires
        macro_index.indexes(names_of(lef.macros@)),
    ensures
        r == component_spec(lef, *comp, units, scale, lef_scale),
{
    let zero = T::zero();
    let k = match find_macro(macro_index, &lef.macros, &comp.model) {
        Some(k) => k,
        None => return Err(DbError::ModelNotFound(comp.model.clone())),
    };
    proof {
        lemma_last_index_found(lef.macros@, macro_named::<T>(comp.model@));
    }
    let comp_lib = &lef.macros[k];
    let size = match &comp_lib.size {
        Some(s) => *s,
        None => return Err(DbError::SizeNotFound),
    };
    let new_size = Size::new(
        size.width.mul(units).mul(lef_scale),
        size.height.mul(units).mul(lef_scale),
    );
    let (coords, orient_type) = match &comp.placement {
        Some(p) => (
            Coords::new(
                T::from_i32(p.x).mul(units).mul(scale),
                T::from_i32(p.y).mul(units).mul(scale),
            ),
            p.orient,
        ),
        None => (Coords::new(zero, zero), OrientType::N),
    };
    let placement_type = if comp.fixed {
        PlacementType::FIXED
    } else {
        PlacementType::MOVABLE
    };
    let instance_type = if comp_lib.is_macro {
        InstanceType::MACRO
    } else {
        InstanceType::STDCELL
    };
    let num_pins = T::from_usize(comp_lib.pins.len());
    Ok(
        (
            ParsedInstance::new(
                0,
                comp.name.clone(),
                comp.model.clone(),
                instance_type,
                placement_type,
                orient_type,
                coords,
                Coords::new(zero, zero),
                new_size,
            ),
            num_pins,
        ),
    )
}

proof fn lemma_outcome_settled<T: Numeric>(
    lef: &Lef<T>,
    comps: Seq<DefComponent>,
    units: T,
    scale: T,
    lef_scale: T,
    k: int,
)
    requires
        0 <= k <= comps.len(),
        !(components_outcome(lef, comps.take(k), units, scale, lef_scale) is Done),
    ensures
        components_outcome(lef, comps, units, scale, lef_scale) == components_outcome(
            lef,
            comps.take(k),
            units,
            scale,
            lef_scale,
        ),
    decreases comps.len() - k,
{
    if k == comps.len() {
        assert(comps.take(k) =~= comps);
    } else {
        assert(comps.drop_last().take(k) =~= comps.take(k));
        lemma_outcome_settled(lef, comps.drop_last(), units, scale, lef_scale, k);
    }
}


/// Where reading the components would abort: the index of the first
/// component read whose coordinates are negative, when no error comes
/// before it.
pub fn find_negative_placement<T: Numeric>(lef: &Lef<T>, def: &Def<T>, scale: T) -> (r: Option<usize>)
    ensures
        match read_instances_spec(lef, def, scale) {
            ComponentsOutcome::Aborted(i) => r == Some(i as usize),
            _ => r is None,
        },
{
    let units = match get_lef_def_units(lef, def) {
        Ok(u) => u,
        Err(_) => return None,
    };
    let lef_scale = match get_lef_scale(lef, scale) {
        Ok(s) => s,
        Err(_) => return None,
    };
    let comps = match &def.components {
        Some(c) => c,
        None => return None,
    };
    let zero = T::zero();
    let macro_index = NameIndex::build(&lef.macros);
    assert(comps@.take(0) =~= Seq::<DefComponent>::empty());
    let mut i: usize = 0;
    while i < comps.len()
        invariant
            i <= comps@.len(),
            zero == T::zero_spec(),
            macro_index.indexes(names_of(lef.macros@)),
            read_instances_spec(lef, def, scale) == components_outcome(lef, comps@, units, scale, lef_scale),
            components_outcome(lef, comps@.take(i as int), units, scale, lef_scale) is Done,
        decreases comps@.len() - i,
    {
        proof {
            assert(comps@.take(i + 1).drop_last() =~= comps@.take(i as int));
            assert(comps@.take(i + 1).last() == comps@[i as int]);
        }
        match read_component(lef, &macro_index, &comps[i], units, scale, lef_scale) {
            Err(_) => {
                proof {
                    lemma_outcome_settled(lef, comps@, units, scale, lef_scale, i + 1);
                }
                return None;
            },
            Ok((inst, _)) => {
                if comps[i].placement.is_some() && !(zero.le(inst.coords.x) && zero.le(inst.coords.y)) {
                    proof {
                        lemma_outcome_settled(lef, comps@, units, scale, lef_scale, i + 1);
                    }
                    return Some(i);
                }
            },
        }
        i = i + 1;
    }
    proof {
        assert(comps@.take(i as int) =~= comps@);
    }
    None
}

/// Reads the instances of a design: one per DEF component, movable ones
/// first, then fixed ones, each group in file order, numbered from 0.
/// The parsed instances and the columns list the instances in the same
/// order.
pub fn read_instances<T: Numeric>(
    lef: &Lef<T>,
    def: &Def<T>,
    scale: T,
    _diearea: &DieArea<T>,
) -> (r: Result<(Vec<ParsedInstance<T>>, VecInstances<T>), DbError>)
    requires
        !(read_instances_spec(lef, def, scale) is Aborted),
    ensures
        match read_instances_spec(lef, def, scale) {
            ComponentsOutcome::Failed(e) => r == Err::<(Vec<ParsedInstance<T>>, VecInstances<T>), DbError>(e),
            ComponentsOutcome::Done(recs) => r matches Ok((parsed, inst)) && {
                &&& parsed_hold(parsed@, database_order(recs), 0)
                &&& columns_hold(inst, database_order(recs))
                &&& forall|j: int| 0 <= j < inst.len_spec() ==> #[trigger] inst.types@[j] != InstanceType::TERMINAL
            },
            ComponentsOutcome::Aborted(_) => false,
        },
{
    let units = match get_lef_def_units(lef, def) {
        Ok(u) => u,
        Err(e) => return Err(e),
    };
    let lef_scale = match get_lef_scale(lef, scale) {
        Ok(s) => s,
        Err(e) => return Err(e),
    };
    let comps = match &def.components {
        Some(c) => c,
        None => {
            let parsed: Vec<ParsedInstance<T>> = Vec::new();
            let inst = VecInstances::empty();
            proof {
                let e = Seq::<(ParsedInstance<T>, T)>::empty();
                reveal_with_fuel(Seq::filter, 1);
                assert(database_order(e) =~= e);
            }
            return Ok((parsed, inst));
        },
    };
    let ghost pm = is_movable_record::<T>();
    let ghost pf = is_fixed_record::<T>();

    let mut movable = VecInstances::empty();
    let mut fixed = VecInstances::empty();
    let mut parsed_instances: Vec<ParsedInstance<T>> = Vec::new();
    let mut fixed_parsed_instances: Vec<ParsedInstance<T>> = Vec::new();
    let ghost mut recs: Seq<(ParsedInstance<T>, T)> = Seq::empty();
    let mut id: usize = 0;
    proof {
        reveal_with_fuel(Seq::filter, 1);
    }

    let macro_index = NameIndex::build(&lef.macros);
    let mut i: usize = 0;
    while i < comps.len()
        invariant
            i <= comps@.len(),
            macro_index.indexes(names_of(lef.macros@)),
            read_instances_spec(lef, def, scale) == components_outcome(lef, comps@, units, scale, lef_scale),
            !(components_outcome(lef, comps@, units, scale, lef_scale) is Aborted),
            components_outcome(lef, comps@.take(i as int), units, scale, lef_scale)
                == ComponentsOutcome::Done(recs),
            pm == is_movable_record::<T>(),
            pf == is_fixed_record::<T>(),
            recs.len() == i,
            forall|j: int| 0 <= j < recs.len() ==> (#[trigger] recs[j]).0.id == 0,
            forall|j: int| 0 <= j < recs.len() ==>
                (#[trigger] recs[j]).0.placement_type == PlacementType::MOVABLE
                || recs[j].0.placement_type == PlacementType::FIXED,
            columns_hold(movable, recs.filter(pm)),
            columns_hold(fixed, recs.filter(pf)),
            forall|j: int| 0 <= j < movable.len_spec() ==> #[trigger] movable.types@[j] != InstanceType::TERMINAL,
            forall|j: int| 0 <= j < fixed.len_spec() ==> #[trigger] fixed.types@[j] != InstanceType::TERMINAL,
            parsed_hold(parsed_instances@, recs.filter(pm), 0),
            fixed_parsed_instances@.len() == recs.filter(pf).len(),
            forall|j: int| 0 <= j < recs.filter(pf).len() ==> #[trigger] fixed_parsed_instances@[j] == recs.filter(pf)[j].0,
            id == parsed_instances@.len(),
            parsed_instances@.len() + fixed_parsed_instances@.len() == i,
        decreases comps@.len() - i,
    {
        proof {
            assert(comps@.take(i + 1).drop_last() =~= comps@.take(i as int));
            assert(comps@.take(i + 1).last() == comps@[i as int]);
        }
        let comp = &comps[i];
        let (inst, num_pins) = match read_component(lef, &macro_index, comp, units, scale, lef_scale) {
            Ok(rec) => rec,
            Err(e) => {
                proof {
                    lemma_outcome_settled(lef, comps@, units, scale, lef_scale, i + 1);
                }
                return Err(e);
            },
        };
        proof {
            if negative_placement(*comp, inst) {
                lemma_outcome_settled(lef, comps@, units, scale, lef_scale, i + 1);
            }
            assert(!negative_placement(*comp, inst));
        }
        let ghost rec = (inst, num_pins);
        proof {
            recs.lemma_filter_push(rec, pm);
            recs.lemma_filter_push(rec, pf);
        }
        let ghost old_movable = movable;
        let ghost old_fixed = fixed;
        let ghost old_parsed = parsed_instances@;
        let ghost old_fixed_parsed = fixed_parsed_instances@;
        match inst.placement_type {
            PlacementType::FIXED => {
                fixed.push(
                    inst.coords.x,
                    inst.coords.y,
                    inst.size.width,
                    inst.size.height,
                    inst.instance_type,
                    inst.placement_type,
                    inst.orient_type,
                    num_pins,
                );
                fixed_parsed_instances.push(inst);
            },
            PlacementType::MOVABLE => {
                movable.push(
                    inst.coords.x,
                    inst.coords.y,
                    inst.size.width,
                    inst.size.height,
                    inst.instance_type,
                    inst.placement_type,
                    inst.orient_type,
                    num_pins,
                );
                let mut inst = inst;
                inst.update_id(id);
                parsed_instances.push(inst);
                id = id + 1;
            },
        }
        proof {
            let nr = recs.push(rec);
            assert(inst.id == 0);
            assert(inst.instance_type != InstanceType::TERMINAL);
            if inst.placement_type == PlacementType::MOVABLE {
                lemma_columns_push(old_movable, movable, recs.filter(pm), rec);
                assert(pm(rec));
                assert(!pf(rec));
                assert(nr.filter(pm) == recs.filter(pm).push(rec));
                assert(nr.filter(pf) == recs.filter(pf));
                assert(parsed_instances@ == old_parsed.push(with_id(inst, (id - 1) as usize)));
            } else {
                lemma_columns_push(old_fixed, fixed, recs.filter(pf), rec);
                assert(!pm(rec));
                assert(pf(rec));
                assert(nr.filter(pm) == recs.filter(pm));
                assert(nr.filter(pf) == recs.filter(pf).push(rec));
                assert(fixed_parsed_instances@ == old_fixed_parsed.push(inst));
                assert(inst == with_id(inst, 0));
            }
            recs = nr;
        }
        i = i + 1;
    }
    proof {
        assert(comps@.take(i as int) =~= comps@);
    }
    let ghost done = recs;

    // fixed instances are the last ones
    let ghost fixed_before = fixed_parsed_instances@;
    let mut j: usize = 0;
    while j < fixed_parsed_instances.len()
        invariant
            j <= fixed_parsed_instances@.len(),
            fixed_parsed_instances@.len() == fixed_before.len(),
            id == parsed_instances@.len() + j,
            parsed_instances@.len() + fixed_before.len() <= usize::MAX,
            forall|q: int| 0 <= q < j ==> #[trigger] fixed_parsed_instances@[q] == with_id(fixed_before[q], (parsed_instances@.len() + q) as usize),
            forall|q: int| j <= q < fixed_before.len() ==> #[trigger] fixed_parsed_instances@[q] == fixed_before[q],
        decreases fixed_before.len() - j,
    {
        fixed_parsed_instances[j].update_id(id);
        id = id + 1;
        j = j + 1;
    }

    let ghost fm = done.filter(pm);
    let ghost ff = done.filter(pf);
    let ghost movable_parsed = parsed_instances@;
    let ghost fixed_parsed = fixed_parsed_instances@;
    parsed_instances.append(&mut fixed_parsed_instances);
    let ghost movable_cols = movable;
    let ghost fixed_cols = fixed;

    let VecInstances {
        coords: VecCoords { x: mut instances_x, y: mut instances_y },
        sizes: VecSizes { w: mut instances_w, h: mut instances_h },
        types: mut instances_type,
        pl_types: mut instances_pl_type,
        o_types: mut instances_o_type,
        areas: mut instances_area,
        num_pins: mut instances_num_pins,
    } = movable;
    let VecInstances {
        coords: VecCoords { x: mut fixed_x, y: mut fixed_y },
        sizes: VecSizes { w: mut fixed_w, h: mut fixed_h },
        types: mut fixed_type,
        pl_types: mut fixed_pl_type,
        o_types: mut fixed_o_type,
        areas: mut fixed_area,
        num_pins: mut fixed_num_pins,
    } = fixed;
    instances_x.append(&mut fixed_x);
    instances_y.append(&mut fixed_y);
    instances_w.append(&mut fixed_w);
    instances_h.append(&mut fixed_h);
    instances_type.append(&mut fixed_type);
    instances_pl_type.append(&mut fixed_pl_type);
    instances_o_type.append(&mut fixed_o_type);
    instances_area.append(&mut fixed_area);
    instances_num_pins.append(&mut fixed_num_pins);

    let instances = VecInstances::new(
        VecCoords::new(instances_x, instances_y),
        VecSizes::new(instances_w, instances_h),
        instances_type,
        instances_pl_type,
        instances_o_type,
        instances_area,
        instances_num_pins,
    );
    proof {
        let order = database_order(done);
        assert(order == fm + ff);
        assert(parsed_instances@ == movable_parsed + fixed_parsed);
        lemma_columns_append(movable_cols, fixed_cols, instances, fm, ff);
        assert forall|j: int| 0 <= j < instances.len_spec() implies #[trigger] instances.types@[j] != InstanceType::TERMINAL by {
            if j < movable_cols.len_spec() {
                assert(instances.types@[j] == movable_cols.types@[j]);
            } else {
                assert(instances.types@[j] == fixed_cols.types@[j - movable_cols.len_spec()]);
            }
        }
        assert forall|q: int| 0 <= q < order.len() implies #[trigger] parsed_instances@[q] == with_id(order[q].0, q as usize) by {
            if q >= fm.len() {
                assert(parsed_instances@[q] == fixed_parsed[q - fm.len()]);
                assert(order[q] == ff[q - fm.len()]);
                assert(fixed_before[q - fm.len()] == ff[q - fm.len()].0);
            } else {
                assert(parsed_instances@[q] == movable_parsed[q]);
                assert(order[q] == fm[q]);
            }
        }
        assert forall|q: int| 0 <= q < order.len() implies #[trigger] instances.coords.x@[q] == order[q].0.coords.x by {
            if q >= fm.len() {
                assert(order[q] == ff[q - fm.len()]);
            } else {
                assert(order[q] == fm[q]);
            }
        }
    }
    Ok((parsed_instances, instances))
}

} // verus!
