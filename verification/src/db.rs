use vstd::prelude::*;

use crate::geometry::DieArea;
use crate::instances::VecInstances;
use crate::instances_reader::{
    ComponentsOutcome, ParsedInstance, columns_hold, database_order, find_negative_placement,
    read_instances, read_instances_spec, with_id,
};
use crate::kinds::{InstanceType, PlacementType};
use crate::lefdef::{DbError, Def, Lef};
use crate::lookup::lemma_last_index_found;
use crate::netlist::{
    Netlist, RawPin, build_netlist, concat_pins, is_netlist_of, nets_view, pins_fit, pins_fit_spec,
    sum_values,
};
use crate::nets_reader::{
    Terminal, holds_terminal, instance_named, net_pins_spec, nets_outcome, node_pin_spec,
    parse_nets, parse_nets_spec, pushed_terminals,
};
use crate::numeric::{Numeric, sum_seq};

verus! {

/// The placement database of a design.
///
/// Instances come ordered: movable ones first, then fixed ones, then the
/// terminals made for the I/O pins (which are fixed).
#[derive(Debug)]
pub struct DB<T: Numeric> {
    pub diearea: DieArea<T>,
    pub instances: VecInstances<T>,
    pub netlist: Netlist<T>,
    pub num_movable: usize,
    pub num_fixed: usize,
    /// Terminals are the instances made for I/O pins (always fixed).
    pub num_terminal: usize,
    pub num_macro: usize,
    pub movable_area: T,
    pub fixed_area: T,
    pub cell_utilization: T,
}

/// How many elements of `s` satisfy `p`.
pub open spec fn count<A>(s: Seq<A>, p: spec_fn(A) -> bool) -> nat
    decreases s.len(),
{
    if s.len() == 0 {
        0
    } else {
        count(s.drop_last(), p) + if p(s.last()) {
            1nat
        } else {
            0nat
        }
    }
}

pub open spec fn is_movable_kind() -> spec_fn(PlacementType) -> bool {
    |t: PlacementType| t == PlacementType::MOVABLE
}

pub open spec fn is_kind(k: InstanceType) -> spec_fn(InstanceType) -> bool {
    |t: InstanceType| t == k
}

/// The counts and areas that `DB::new` computes from instances and a die
/// area.
pub open spec fn db_summary_holds<T: Numeric>(db: DB<T>) -> bool {
    let inst = db.instances;
    let n = inst.len_spec();
    &&& db.num_movable == count(inst.pl_types@.take(n as int), is_movable_kind())
    &&& db.num_fixed == n - db.num_movable
    &&& db.num_terminal == count(inst.types@.take(n as int), is_kind(InstanceType::TERMINAL))
    &&& db.num_macro == count(inst.types@.take(n as int), is_kind(InstanceType::MACRO))
    &&& db.movable_area == sum_seq(inst.areas@.take(db.num_movable as int))
    &&& db.fixed_area == sum_seq(inst.areas@.subrange(db.num_movable as int, n as int))
    &&& db.cell_utilization == db.movable_area.div_spec(db.diearea.area_spec().sub_spec(db.fixed_area))
}

impl<T: Numeric> DB<T> {
    /// Counts the movable, fixed, terminal and macro instances, adds up
    /// the areas of the first `num_movable` instances (the movable area)
    /// and of the others (the fixed area), and gives the utilization
    /// `movable_area / (die area - fixed_area)`.
    pub fn new(diearea: DieArea<T>, instances: VecInstances<T>, netlist: Netlist<T>) -> (r: Self)
        requires
            instances.coords.wf(),
            instances.pl_types.len() >= instances.len_spec(),
            instances.types.len() >= instances.len_spec(),
            instances.areas.len() >= instances.len_spec(),
            forall|i: int|
                0 <= i < instances.len_spec() && #[trigger] instances.types@[i] == InstanceType::TERMINAL
                    ==> instances.pl_types@[i] != PlacementType::MOVABLE,
        ensures
            r.diearea == diearea,
            r.instances == instances,
            r.netlist == netlist,
            db_summary_holds(r),
            r.num_movable + r.num_fixed == instances.len_spec(),
            r.num_movable == count(instances.pl_types@.take(instances.len_spec() as int), is_movable_kind()),
            r.num_terminal == count(
                instances.types@.take(instances.len_spec() as int),
                is_kind(InstanceType::TERMINAL),
            ),
            r.num_macro == count(instances.types@.take(instances.len_spec() as int), is_kind(InstanceType::MACRO)),
            r.movable_area == sum_seq(instances.areas@.take(r.num_movable as int)),
            r.fixed_area == sum_seq(instances.areas@.subrange(r.num_movable as int, instances.len_spec() as int)),
            r.cell_utilization == r.movable_area.div_spec(
                diearea.size.width.mul_spec(diearea.size.height).sub_spec(r.fixed_area),
            ),
    {
        let mut movable_area = T::zero();
        let mut fixed_area = T::zero();

        let mut num_movable: usize = 0;
        let mut num_fixed: usize = 0;
        let mut num_terminal: usize = 0;
        let mut num_macro: usize = 0;

        let n = instances.len();
        let mut i: usize = 0;
        while i < n
            invariant
                i <= n,
                n == instances.len_spec(),
                instances.coords.wf(),
                instances.pl_types.len() >= n,
                instances.types.len() >= n,
                num_movable == count(instances.pl_types@.take(i as int), is_movable_kind()),
                num_movable + num_fixed == i,
                num_terminal == count(instances.types@.take(i as int), is_kind(InstanceType::TERMINAL)),
                num_macro == count(instances.types@.take(i as int), is_kind(InstanceType::MACRO)),
                num_terminal <= i,
                num_macro <= i,
            decreases n - i,
        {
            proof {
                assert(instances.pl_types@.take(i + 1).drop_last() =~= instances.pl_types@.take(i as int));
                assert(instances.types@.take(i + 1).drop_last() =~= instances.types@.take(i as int));
            }
            if instances.is_movable(i) {
                num_movable = num_movable + 1;
            } else {
                num_fixed = num_fixed + 1;
            }
            if instances.is_macro(i) {
                num_macro = num_macro + 1;
            }
            if instances.is_terminal(i) {
                num_terminal = num_terminal + 1;
            }
            i = i + 1;
        }

        let mut i: usize = 0;
        while i < num_movable
            invariant
                i <= num_movable,
                num_movable <= n,
                n == instances.len_spec(),
                instances.areas.len() >= n,
                movable_area == sum_seq(instances.areas@.take(i as int)),
            decreases num_movable - i,
        {
            proof {
                assert(instances.areas@.take(i + 1).drop_last() =~= instances.areas@.take(i as int));
            }
            movable_area = movable_area.add(instances.areas[i]);
            i = i + 1;
        }
        let mut i: usize = num_movable;
        proof {
            assert(instances.areas@.subrange(num_movable as int, num_movable as int) =~= Seq::<T>::empty());
        }
        while i < n
            invariant
                num_movable <= i <= n,
                n == instances.len_spec(),
                instances.areas.len() >= n,
                fixed_area == sum_seq(instances.areas@.subrange(num_movable as int, i as int)),
            decreases n - i,
        {
            proof {
                assert(instances.areas@.subrange(num_movable as int, i + 1).drop_last()
                    =~= instances.areas@.subrange(num_movable as int, i as int));
            }
            fixed_area = fixed_area.add(instances.areas[i]);
            i = i + 1;
        }

        let cell_utilization = movable_area.div(diearea.area().sub(fixed_area));

        Self {
            diearea,
            instances,
            netlist,
            num_movable,
            num_fixed,
            num_terminal,
            num_macro,
            movable_area,
            fixed_area,
            cell_utilization,
        }
    }

    /// The shares of nets with 2 pins, with 3 pins and with more, in whole
    /// percent (rounded down).
    pub fn net_shares(&self) -> (r: (usize, usize, usize))
        requires
            self.netlist.nets.len() > 0,
            self.netlist.n_2nets * 100 <= usize::MAX,
            self.netlist.n_3nets * 100 <= usize::MAX,
            self.netlist.n_nnets * 100 <= usize::MAX,
        ensures
            r.0 == self.netlist.n_2nets * 100 / (self.netlist.nets.len() as int),
            r.1 == self.netlist.n_3nets * 100 / (self.netlist.nets.len() as int),
            r.2 == self.netlist.n_nnets * 100 / (self.netlist.nets.len() as int),
    {
        let n_nets = self.netlist.nets.len();
        (
            self.netlist.n_2nets * 100 / n_nets,
            self.netlist.n_3nets * 100 / n_nets,
            self.netlist.n_nnets * 100 / n_nets,
        )
    }
}


/// The parsed instances that reading the components gives, in database
/// order and numbered from 0.
pub open spec fn parsed_of<T: Numeric>(order: Seq<(ParsedInstance<T>, T)>) -> Seq<ParsedInstance<T>> {
    Seq::new(order.len(), |j: int| with_id(order[j].0, j as usize))
}

/// Instance `j` of `inst` is the component record `rec`.
pub open spec fn record_at<T: Numeric>(inst: VecInstances<T>, j: int, rec: (ParsedInstance<T>, T)) -> bool {
    &&& inst.coords.x@[j] == rec.0.coords.x
    &&& inst.coords.y@[j] == rec.0.coords.y
    &&& inst.sizes.w@[j] == rec.0.size.width
    &&& inst.sizes.h@[j] == rec.0.size.height
    &&& inst.types@[j] == rec.0.instance_type
    &&& inst.pl_types@[j] == rec.0.placement_type
    &&& inst.o_types@[j] == rec.0.orient_type
    &&& inst.areas@[j] == rec.0.size.width.mul_spec(rec.0.size.height)
    &&& inst.num_pins@[j] == rec.1
}

/// The instances `inst` are the component records `order` followed by the
/// terminals `terms`.
pub open spec fn instances_hold<T: Numeric>(
    inst: VecInstances<T>,
    order: Seq<(ParsedInstance<T>, T)>,
    terms: Seq<Terminal<T>>,
) -> bool {
    &&& inst.wf()
    &&& inst.len_spec() == order.len() + terms.len()
    &&& forall|j: int| 0 <= j < order.len() ==> #[trigger] record_at(inst, j, order[j])
    &&& forall|i: int| 0 <= i < terms.len() ==> holds_terminal(inst, order.len() + i, #[trigger] terms[i])
}

/// The pin counts of the component records `order` followed by one pin
/// for each terminal of `terms`.
pub open spec fn pin_counts<T: Numeric>(order: Seq<(ParsedInstance<T>, T)>, terms: Seq<Terminal<T>>) -> Seq<T> {
    Seq::new(
        order.len() + terms.len(),
        |j: int|
            if j < order.len() {
                order[j].1
            } else {
                T::one_spec()
            },
    )
}

/// Every pin of the nets `groups` belongs to an instance numbered below `b`.
pub open spec fn pins_below<T>(groups: Seq<Seq<RawPin<T>>>, b: nat) -> bool {
    forall|i: int, j: int| 0 <= i < groups.len() && 0 <= j < groups[i].len() ==> (#[trigger] groups[i][j]).0 < b
}

/// How reading a database from a LEF library and a DEF design ends.
pub enum ReadOutcome<T: Numeric> {
    /// The database.
    Read(DB<T>),
    /// The library and design cannot be read, for this reason.
    Failed(DbError),
    /// The DEF component of this index is placed at a negative coordinate.
    NegativePlacement(usize),
    /// The nets name this many pins (first), more than the instances have
    /// (second, the sum of their pin counts).
    TooManyPins(usize, T),
}

/// What reading a database from `lef`, `def`, the placement `scale` and
/// the die area `diearea` gives.
///
/// Components are read first (see `read_instances_spec`), then nets (see
/// `parse_nets_spec`), which add a terminal instance for each I/O pin
/// connection.  The nets must not name more pins than the instances have;
/// then the netlist numbers the pins, nets of 2 pins first, then of 3,
/// then the others, and the database counts and sums over the instances.
pub open spec fn read_db_spec<T: Numeric>(
    lef: &Lef<T>,
    def: &Def<T>,
    scale: T,
    diearea: DieArea<T>,
    r: ReadOutcome<T>,
) -> bool {
    match read_instances_spec(lef, def, scale) {
        ComponentsOutcome::Aborted(i) => r == ReadOutcome::<T>::NegativePlacement(i as usize),
        ComponentsOutcome::Failed(e) => r == ReadOutcome::<T>::Failed(e),
        ComponentsOutcome::Done(recs) => {
            let order = database_order(recs);
            let out = parse_nets_spec(lef, def, parsed_of(order), scale, order.len());
            match out.error {
                Some(e) => r == ReadOutcome::<T>::Failed(e),
                None => {
                    let groups = out.nets2 + out.nets3 + out.netsn;
                    let n_pins = concat_pins(groups).len();
                    if !pins_fit_spec(n_pins, pin_counts(order, out.terminals)) {
                        r == ReadOutcome::<T>::TooManyPins(n_pins as usize, sum_seq(pin_counts(order, out.terminals)))
                    } else {
                        r matches ReadOutcome::Read(db) && {
                            &&& db.diearea == diearea
                            &&& instances_hold(db.instances, order, out.terminals)
                            &&& is_netlist_of(db.netlist, groups, db.instances.len_spec())
                            &&& db.netlist.n_2nets == out.nets2.len()
                            &&& db.netlist.n_3nets == out.nets3.len()
                            &&& db.netlist.n_nnets == out.netsn.len()
                            &&& db_summary_holds(db)
                        }
                    }
                },
            }
        },
    }
}

proof fn lemma_node_pin_below<T: Numeric>(
    lef: &Lef<T>,
    parsed: Seq<ParsedInstance<T>>,
    pin_name: String,
    inst_name: String,
    units: T,
    lef_scale: T,
    n0: nat,
)
    requires
        forall|c: int| 0 <= c < parsed.len() ==> (#[trigger] parsed[c]).id < n0,
    ensures
        node_pin_spec(lef, parsed, pin_name, inst_name, units, lef_scale) matches Ok(pin) ==> pin.0 < n0,
{
    lemma_last_index_found(parsed, instance_named::<T>(inst_name@));
}

proof fn lemma_net_pins_below<T: Numeric>(
    lef: &Lef<T>,
    def: &Def<T>,
    parsed: Seq<ParsedInstance<T>>,
    conns: Seq<(String, String)>,
    units: T,
    scale: T,
    lef_scale: T,
    n0: nat,
    n1: nat,
)
    requires
        n0 <= n1,
        forall|c: int| 0 <= c < parsed.len() ==> (#[trigger] parsed[c]).id < n0,
    ensures
        ({
            let out = net_pins_spec(lef, def, parsed, conns, units, scale, lef_scale, n1);
            forall|j: int| 0 <= j < out.0.len() ==> (#[trigger] out.0[j]).0 < n1 + out.1.len()
        }),
    decreases conns.len(),
{
    if conns.len() > 0 {
        lemma_net_pins_below(lef, def, parsed, conns.drop_last(), units, scale, lef_scale, n0, n1);
        let conn = conns.last();
        lemma_node_pin_below(lef, parsed, conn.1, conn.0, units, lef_scale, n0);
        let prev = net_pins_spec(lef, def, parsed, conns.drop_last(), units, scale, lef_scale, n1);
        let out = net_pins_spec(lef, def, parsed, conns, units, scale, lef_scale, n1);
        assert forall|j: int| 0 <= j < out.0.len() implies (#[trigger] out.0[j]).0 < n1 + out.1.len() by {
            if j < prev.0.len() {
                assert(out.0[j] == prev.0[j]);
            }
        }
    }
}

pub(crate) proof fn lemma_nets_below<T: Numeric>(
    lef: &Lef<T>,
    def: &Def<T>,
    parsed: Seq<ParsedInstance<T>>,
    nets: Seq<crate::lefdef::DefNet>,
    units: T,
    scale: T,
    lef_scale: T,
    n0: nat,
)
    requires
        forall|c: int| 0 <= c < parsed.len() ==> (#[trigger] parsed[c]).id < n0,
    ensures
        ({
            let out = nets_outcome(lef, def, parsed, nets, units, scale, lef_scale, n0);
            let b = n0 + out.terminals.len();
            &&& pins_below(out.nets2, b)
            &&& pins_below(out.nets3, b)
            &&& pins_below(out.netsn, b)
        }),
    decreases nets.len(),
{
    if nets.len() > 0 {
        lemma_nets_below(lef, def, parsed, nets.drop_last(), units, scale, lef_scale, n0);
        let prev = nets_outcome(lef, def, parsed, nets.drop_last(), units, scale, lef_scale, n0);
        let n1 = n0 + prev.terminals.len();
        match nets.last().connections {
            Some(conns) => {
                lemma_net_pins_below(lef, def, parsed, conns@, units, scale, lef_scale, n0, n1);
            },
            None => {},
        }
        let out = nets_outcome(lef, def, parsed, nets, units, scale, lef_scale, n0);
        let b = n0 + out.terminals.len();
        assert(b >= n1);
        assert(pins_below(prev.nets2, b));
        assert(pins_below(prev.nets3, b));
        assert(pins_below(prev.netsn, b));
    }
}

pub(crate) proof fn lemma_concat_below<T>(groups: Seq<Seq<RawPin<T>>>, b: nat)
    requires
        pins_below(groups, b),
    ensures
        forall|p: int| 0 <= p < concat_pins(groups).len() ==> (#[trigger] concat_pins(groups)[p]).0 < b,
    decreases groups.len(),
{
    if groups.len() > 0 {
        let init = groups.drop_last();
        assert(pins_below(init, b)) by {
            assert forall|i: int, j: int| 0 <= i < init.len() && 0 <= j < init[i].len() implies (#[trigger] init[i][j]).0 < b by {
                assert(init[i] == groups[i]);
            }
        }
        lemma_concat_below(init, b);
        let c = concat_pins(groups);
        assert forall|p: int| 0 <= p < c.len() implies (#[trigger] c[p]).0 < b by {
            if p >= concat_pins(init).len() {
                let j = p - concat_pins(init).len();
                assert(c[p] == groups[groups.len() - 1][j]);
            }
        }
    }
}

proof fn lemma_instances_hold<T: Numeric>(
    mid: VecInstances<T>,
    fin: VecInstances<T>,
    order: Seq<(ParsedInstance<T>, T)>,
    terms: Seq<Terminal<T>>,
)
    requires
        columns_hold(mid, order),
        pushed_terminals(mid, fin, terms),
    ensures
        instances_hold(fin, order, terms),
        fin.num_pins@ == pin_counts(order, terms),
{
    assert(mid.len_spec() == order.len());
    assert forall|j: int| 0 <= j < order.len() implies #[trigger] record_at(fin, j, order[j]) by {
        assert(mid.coords.x@[j] == fin.coords.x@[j]);
        assert(mid.coords.x@[j] == order[j].0.coords.x);
    }
    assert forall|i: int| 0 <= i < terms.len() implies holds_terminal(fin, order.len() + i, #[trigger] terms[i]) by {
        assert(holds_terminal(fin, mid.len_spec() + i, terms[i]));
    }
    assert(instances_hold(fin, order, terms));
    lemma_pin_counts(fin, order, terms);
}

proof fn lemma_pin_counts<T: Numeric>(
    fin: VecInstances<T>,
    order: Seq<(ParsedInstance<T>, T)>,
    terms: Seq<Terminal<T>>,
)
    requires
        instances_hold(fin, order, terms),
    ensures
        fin.num_pins@ == pin_counts(order, terms),
{
    assert forall|j: int| 0 <= j < fin.num_pins@.len() implies #[trigger] fin.num_pins@[j] == pin_counts(order, terms)[j] by {
        if j < order.len() {
            assert(record_at(fin, j, order[j]));
        } else {
            assert(holds_terminal(fin, order.len() + (j - order.len()), terms[j - order.len()]));
        }
    }
    assert(fin.num_pins@ =~= pin_counts(order, terms));
}

/// Reads the database of a design from its LEF library and DEF design,
/// given the placement `scale` and the die area.  Says where reading
/// must stop short: at a component placed at a negative coordinate, or
/// when the nets name more pins than the instances have.
pub fn read_db_models<T: Numeric>(lef: &Lef<T>, def: &Def<T>, scale: T, diearea: DieArea<T>) -> (r: ReadOutcome<T>)
    ensures
        read_db_spec(lef, def, scale, diearea, r),
{
    if let Some(i) = find_negative_placement(lef, def, scale) {
        return ReadOutcome::NegativePlacement(i);
    }
    let (parsed_instances, mut instances) = match read_instances(lef, def, scale, &diearea) {
        Ok(x) => x,
        Err(e) => return ReadOutcome::Failed(e),
    };
    let ghost recs = read_instances_spec(lef, def, scale)->Done_0;
    let ghost order = database_order(recs);
    let ghost mid = instances;
    proof {
        assert(parsed_instances@ =~= parsed_of(order));
    }
    let n0 = instances.len();
    let (t2, t3, tn) = match parse_nets(lef, def, &parsed_instances, &mut instances, scale) {
        Ok(x) => x,
        Err(e) => return ReadOutcome::Failed(e),
    };
    let ghost out = parse_nets_spec(lef, def, parsed_of(order), scale, order.len());
    let ghost groups = nets_view(t2@) + nets_view(t3@) + nets_view(tn@);
    proof {
        lemma_instances_hold(mid, instances, order, out.terminals);
        assert(groups == out.nets2 + out.nets3 + out.netsn);
    }

    proof {
        // every pin belongs to an existing instance
        let po = parsed_of(order);
        assert forall|c: int| 0 <= c < po.len() implies (#[trigger] po[c]).id < order.len() by {}
        if def.nets is Some {
            let units = crate::units::lef_def_units_spec(lef, def)->Ok_0;
            let lef_scale = crate::units::lef_scale_spec(lef, scale)->Ok_0;
            lemma_nets_below(lef, def, po, def.nets->Some_0@, units, scale, lef_scale, order.len());
        }
        let b = order.len() + out.terminals.len();
        assert(pins_below(groups, b)) by {
            assert forall|i: int, j: int| 0 <= i < groups.len() && 0 <= j < groups[i].len() implies (#[trigger] groups[i][j]).0 < b by {
                if i < out.nets2.len() {
                    assert(groups[i] == out.nets2[i]);
                } else if i < out.nets2.len() + out.nets3.len() {
                    assert(groups[i] == out.nets3[i - out.nets2.len()]);
                } else {
                    assert(groups[i] == out.netsn[i - out.nets2.len() - out.nets3.len()]);
                }
            }
        }
        lemma_concat_below(groups, b);
    }
    let n_instances = instances.len();
    let netlist = build_netlist(t2, t3, tn, n_instances);

    // sanity check: the nets name no more pins than the instances have
    if !pins_fit(netlist.parsed_pins.len(), &instances.num_pins) {
        let total = sum_values(&instances.num_pins);
        return ReadOutcome::TooManyPins(netlist.parsed_pins.len(), total);
    }

    proof {
        assert forall|i: int|
            0 <= i < instances.len_spec() && #[trigger] instances.types@[i] == InstanceType::TERMINAL
                implies instances.pl_types@[i] != PlacementType::MOVABLE by {
            if i < order.len() {
                assert(mid.coords.x@[i] == instances.coords.x@[i]);
                assert(mid.types@[i] == instances.types@[i]);
            } else {
                assert(holds_terminal(instances, order.len() + (i - order.len()), out.terminals[i - order.len()]));
            }
        }
    }
    let db = DB::new(diearea, instances, netlist);
    ReadOutcome::Read(db)
}

} // verus!
