use vstd::prelude::*;

use crate::db::{
    ReadOutcome, count, instances_hold, is_kind, is_movable_kind, lemma_concat_below, lemma_nets_below,
    parsed_of, pins_below, read_db_spec, record_at,
};
use crate::geometry::DieArea;
use crate::instances::VecInstances;
use crate::instances_reader::{
    ComponentsOutcome, database_order, is_fixed_record, is_movable_record, read_instances_spec,
};
use crate::kinds::{InstanceType, PlacementType};
use crate::lefdef::{Def, Lef};
use crate::netlist::{Netlist, RawPin, concat_pins, is_netlist_of, pins_of_macro};
use crate::nets_reader::{holds_terminal, nets_outcome, parse_nets_spec};
use crate::numeric::Numeric;
use crate::units::{lef_def_units_spec, lef_scale_spec};

verus! {

proof fn lemma_pins_of_macro<T>(flat: Seq<RawPin<T>>, m: int)
    requires
        flat.len() <= usize::MAX,
    ensures
        forall|i: int|
            0 <= i < pins_of_macro(flat, m).len() ==> (#[trigger] pins_of_macro(flat, m)[i]) < flat.len(),
        forall|i: int|
            0 <= i < pins_of_macro(flat, m).len() ==> flat[(#[trigger] pins_of_macro(flat, m)[i]) as int].0 == m,
        forall|p: int| 0 <= p < flat.len() && (#[trigger] flat[p]).0 == m ==> pins_of_macro(flat, m).contains(p as usize),
        forall|i: int, j: int|
            0 <= i < j < pins_of_macro(flat, m).len() ==> (#[trigger] pins_of_macro(flat, m)[i]) < (
            #[trigger] pins_of_macro(flat, m)[j]),
    decreases flat.len(),
{
    if flat.len() > 0 {
        let init = flat.drop_last();
        lemma_pins_of_macro(init, m);
        let rest = pins_of_macro(init, m);
        let ps = pins_of_macro(flat, m);
        assert forall|i: int| 0 <= i < ps.len() implies (#[trigger] ps[i]) < flat.len() && flat[ps[i] as int].0 == m by {
            if i < rest.len() {
                assert(ps[i] == rest[i]);
                assert(rest[i] < init.len());
                assert(init[rest[i] as int].0 == m);
                assert(flat[rest[i] as int] == init[rest[i] as int]);
            } else {
                assert(flat.last().0 == m);
                assert(ps[i] == (flat.len() - 1) as usize);
            }
        }
        assert forall|p: int| 0 <= p < flat.len() && (#[trigger] flat[p]).0 == m implies ps.contains(p as usize) by {
            if p < init.len() {
                assert(init[p] == flat[p]);
                assert(rest.contains(p as usize));
                let k = choose|k: int| 0 <= k < rest.len() && rest[k] == p as usize;
                assert(ps[k] == rest[k]);
            } else {
                assert(ps[ps.len() - 1] == p as usize);
            }
        }
        assert forall|i: int, j: int| 0 <= i < j < ps.len() implies (#[trigger] ps[i]) < (#[trigger] ps[j]) by {
            if j < rest.len() {
                assert(ps[i] == rest[i]);
                assert(ps[j] == rest[j]);
            } else {
                assert(flat.last().0 == m);
                assert(ps[j] == (flat.len() - 1) as usize);
                assert(ps[i] == rest[i]);
                assert(rest[i] < init.len());
            }
        }
    }
}

/// Every pin of a netlist belongs to an instance that lists it among its
/// pins.
pub proof fn lemma_pin_in_its_instance<T: Numeric>(nl: Netlist<T>, groups: Seq<Seq<RawPin<T>>>, n_inst: nat)
    requires
        is_netlist_of(nl, groups, n_inst),
        forall|p: int| 0 <= p < concat_pins(groups).len() ==> (#[trigger] concat_pins(groups)[p]).0 < n_inst,
    ensures
        forall|p: int| 0 <= p < nl.pin_2_macro@.len() ==> #[trigger] nl.pin_2_macro@[p] < n_inst,
        forall|p: int|
            0 <= p < nl.pin_2_macro@.len() ==> nl.macro_2_pins@[#[trigger] nl.pin_2_macro@[p] as int]@.contains(
                p as usize,
            ),
{
    let flat = concat_pins(groups);
    assert(nl.parsed_pins@.len() == nl.parsed_pins.len());
    assert forall|p: int| 0 <= p < nl.pin_2_macro@.len() implies #[trigger] nl.pin_2_macro@[p] < n_inst
        && nl.macro_2_pins@[nl.pin_2_macro@[p] as int]@.contains(p as usize) by {
        let m = flat[p].0 as int;
        assert(nl.parsed_pins@[p].macro_id == flat[p].0);
        assert(nl.pin_2_macro@[p] == flat[p].0);
        lemma_pins_of_macro(flat, m);
    }
}

/// The pins an instance lists are, in increasing order, pins that belong
/// to it.
pub proof fn lemma_instance_pins_belong<T: Numeric>(nl: Netlist<T>, groups: Seq<Seq<RawPin<T>>>, n_inst: nat)
    requires
        is_netlist_of(nl, groups, n_inst),
    ensures
        forall|m: int, i: int|
            0 <= m < n_inst && 0 <= i < nl.macro_2_pins@[m]@.len() ==> #[trigger] nl.macro_2_pins@[m]@[i]
                < nl.pin_2_macro@.len(),
        forall|m: int, i: int|
            0 <= m < n_inst && 0 <= i < nl.macro_2_pins@[m]@.len() ==> nl.pin_2_macro@[#[trigger] nl.macro_2_pins@[m]@[i] as int]
                == m,
        forall|m: int, i: int, j: int|
            0 <= m < n_inst && 0 <= i < j < nl.macro_2_pins@[m]@.len() ==> (#[trigger] nl.macro_2_pins@[m]@[i])
                < (#[trigger] nl.macro_2_pins@[m]@[j]),
{
    let flat = concat_pins(groups);
    assert(nl.parsed_pins@.len() == nl.parsed_pins.len());
    assert forall|m: int, i: int| 0 <= m < n_inst && 0 <= i < nl.macro_2_pins@[m]@.len() implies
        #[trigger] nl.macro_2_pins@[m]@[i] < nl.pin_2_macro@.len()
        && nl.pin_2_macro@[nl.macro_2_pins@[m]@[i] as int] == m by {
        lemma_pins_of_macro(flat, m);
        assert(nl.macro_2_pins@[m]@ == pins_of_macro(flat, m));
        let q = nl.macro_2_pins@[m]@[i] as int;
        assert(nl.parsed_pins@[q].macro_id == flat[q].0);
    }
    assert forall|m: int, i: int, j: int|
        0 <= m < n_inst && 0 <= i < j < nl.macro_2_pins@[m]@.len() implies (#[trigger] nl.macro_2_pins@[m]@[i])
        < (#[trigger] nl.macro_2_pins@[m]@[j]) by {
        lemma_pins_of_macro(flat, m);
        assert(nl.macro_2_pins@[m]@ == pins_of_macro(flat, m));
    }
}


proof fn lemma_count_split<A>(s: Seq<A>, p: spec_fn(A) -> bool, k: int)
    requires
        0 <= k <= s.len(),
        forall|i: int| 0 <= i < k ==> p(#[trigger] s[i]),
        forall|i: int| k <= i < s.len() ==> !p(#[trigger] s[i]),
    ensures
        count(s, p) == k,
    decreases s.len(),
{
    if s.len() > 0 {
        let init = s.drop_last();
        if k == s.len() {
            assert(p(s[s.len() - 1]));
            lemma_count_split(init, p, k - 1);
        } else {
            assert(!p(s[s.len() - 1]));
            lemma_count_split(init, p, k);
        }
    }
}

proof fn lemma_filter_keeps<A>(s: Seq<A>, p: spec_fn(A) -> bool, q: spec_fn(A) -> bool)
    requires
        forall|i: int| 0 <= i < s.len() ==> q(#[trigger] s[i]),
    ensures
        forall|i: int| 0 <= i < s.filter(p).len() ==> q(#[trigger] s.filter(p)[i]),
    decreases s.len(),
{
    reveal(Seq::filter);
    if s.len() > 0 {
        let init = s.drop_last();
        assert forall|i: int| 0 <= i < init.len() implies q(#[trigger] init[i]) by {
            assert(init[i] == s[i]);
        }
        lemma_filter_keeps(init, p, q);
        let f = s.filter(p);
        assert forall|i: int| 0 <= i < f.len() implies q(#[trigger] f[i]) by {
            if i < init.filter(p).len() {
                assert(f[i] == init.filter(p)[i]);
            } else {
                assert(f[i] == s.last());
            }
        }
    }
}

pub open spec fn not_terminal_record<T: Numeric>() -> spec_fn((crate::instances_reader::ParsedInstance<T>, T)) -> bool {
    |r: (crate::instances_reader::ParsedInstance<T>, T)| r.0.instance_type != InstanceType::TERMINAL
}

proof fn lemma_components_not_terminal<T: Numeric>(
    lef: &Lef<T>,
    comps: Seq<crate::lefdef::DefComponent>,
    units: T,
    scale: T,
    lef_scale: T,
)
    ensures
        crate::instances_reader::components_outcome(lef, comps, units, scale, lef_scale) matches ComponentsOutcome::Done(recs)
            ==> forall|i: int| 0 <= i < recs.len() ==> not_terminal_record::<T>()(#[trigger] recs[i]),
    decreases comps.len(),
{
    if comps.len() > 0 {
        lemma_components_not_terminal(lef, comps.drop_last(), units, scale, lef_scale);
        let out = crate::instances_reader::components_outcome(lef, comps, units, scale, lef_scale);
        let prev = crate::instances_reader::components_outcome(lef, comps.drop_last(), units, scale, lef_scale);
        if out is Done {
            let recs = out->Done_0;
            assert forall|i: int| 0 <= i < recs.len() implies not_terminal_record::<T>()(#[trigger] recs[i]) by {
                if i < recs.len() - 1 {
                    assert(recs[i] == prev->Done_0[i]);
                }
            }
        }
    }
}

/// In a database read from a library and a design, the movable
/// instances come first and are exactly the first `num_movable`; the
/// terminals made for the I/O pins come last and are exactly the last
/// `num_terminal`; terminals are fixed.
pub proof fn lemma_read_db_instance_order<T: Numeric>(
    lef: &Lef<T>,
    def: &Def<T>,
    scale: T,
    diearea: DieArea<T>,
    r: ReadOutcome<T>,
)
    requires
        read_db_spec(lef, def, scale, diearea, r),
        r is Read,
    ensures
        ({
            let db = r->Read_0;
            let n = db.instances.len_spec();
            &&& forall|j: int|
                0 <= j < n ==> ((#[trigger] db.instances.pl_types@[j] == PlacementType::MOVABLE) <==> j
                    < db.num_movable)
            &&& forall|j: int|
                0 <= j < n ==> ((#[trigger] db.instances.types@[j] == InstanceType::TERMINAL) <==> j
                    >= n - db.num_terminal)
            &&& forall|j: int|
                0 <= j < n && db.instances.types@[j] == InstanceType::TERMINAL ==> #[trigger] db.instances.pl_types@[j]
                    == PlacementType::FIXED
        }),
{
    let db = r->Read_0;
    let inst = db.instances;
    let n = inst.len_spec();
    let units = lef_def_units_spec(lef, def)->Ok_0;
    let lef_scale = lef_scale_spec(lef, scale)->Ok_0;
    let recs = read_instances_spec(lef, def, scale)->Done_0;
    if def.components is Some {
        lemma_components_not_terminal(lef, def.components->Some_0@, units, scale, lef_scale);
    }
    assert forall|i: int| 0 <= i < recs.len() implies not_terminal_record::<T>()(#[trigger] recs[i]) by {
        if def.components is None {
            assert(recs.len() == 0);
        }
    }
    let pm = is_movable_record::<T>();
    let pf = is_fixed_record::<T>();
    let fm = recs.filter(pm);
    let ff = recs.filter(pf);
    let order = database_order(recs);
    assert(order == fm + ff);
    lemma_filter_keeps(recs, pm, not_terminal_record::<T>());
    lemma_filter_keeps(recs, pf, not_terminal_record::<T>());
    let out = parse_nets_spec(lef, def, parsed_of(order), scale, order.len());
    let terms = out.terminals;
    assert(instances_hold(inst, order, terms));

    assert forall|j: int| 0 <= j < n implies ((#[trigger] inst.pl_types@[j] == PlacementType::MOVABLE) <==> j < fm.len())
        && ((inst.types@[j] == InstanceType::TERMINAL) <==> j >= order.len()) by {
        if j < order.len() {
            assert(record_at(inst, j, order[j]));
            if j < fm.len() {
                assert(order[j] == fm[j]);
                recs.lemma_filter_pred(pm, j);
                assert(not_terminal_record::<T>()(fm[j]));
            } else {
                assert(order[j] == ff[j - fm.len()]);
                recs.lemma_filter_pred(pf, j - fm.len());
                assert(not_terminal_record::<T>()(ff[j - fm.len()]));
            }
        } else {
            assert(holds_terminal(inst, order.len() + (j - order.len()), terms[j - order.len()]));
        }
    }
    assert(inst.pl_types@.take(n as int) =~= inst.pl_types@);
    assert(inst.types@.take(n as int) =~= inst.types@);
    lemma_count_split(inst.pl_types@, is_movable_kind(), fm.len() as int);
    assert forall|i: int| 0 <= i < n implies (is_kind(InstanceType::TERMINAL)(#[trigger] inst.types@[i])
        <==> i >= order.len()) by {
        assert(inst.pl_types@[i] == PlacementType::MOVABLE <==> i < fm.len());
    }
    lemma_count_split_rev(inst.types@, is_kind(InstanceType::TERMINAL), order.len() as int);
}

proof fn lemma_count_split_rev<A>(s: Seq<A>, p: spec_fn(A) -> bool, k: int)
    requires
        0 <= k <= s.len(),
        forall|i: int| 0 <= i < k ==> !p(#[trigger] s[i]),
        forall|i: int| k <= i < s.len() ==> p(#[trigger] s[i]),
    ensures
        count(s, p) == s.len() - k,
    decreases s.len(),
{
    if s.len() > 0 {
        let init = s.drop_last();
        if k == s.len() {
            assert(!p(s[s.len() - 1]));
            lemma_count_split_rev(init, p, k - 1);
        } else {
            assert(p(s[s.len() - 1]));
            lemma_count_split_rev(init, p, k);
        }
    }
}


proof fn lemma_nets_sizes<T: Numeric>(
    lef: &Lef<T>,
    def: &Def<T>,
    parsed: Seq<crate::instances_reader::ParsedInstance<T>>,
    nets: Seq<crate::lefdef::DefNet>,
    units: T,
    scale: T,
    lef_scale: T,
    n0: nat,
)
    ensures
        ({
            let out = nets_outcome(lef, def, parsed, nets, units, scale, lef_scale, n0);
            &&& forall|k: int| 0 <= k < out.nets2.len() ==> (#[trigger] out.nets2[k]).len() == 2
            &&& forall|k: int| 0 <= k < out.nets3.len() ==> (#[trigger] out.nets3[k]).len() == 3
            &&& forall|k: int| 0 <= k < out.netsn.len() ==> (#[trigger] out.netsn[k]).len() > 3
        }),
    decreases nets.len(),
{
    if nets.len() > 0 {
        lemma_nets_sizes(lef, def, parsed, nets.drop_last(), units, scale, lef_scale, n0);
    }
}

/// In a database read from a library and a design, nets come sorted by
/// size: the first `n_2nets` have 2 pins, the next `n_3nets` have 3, and
/// the last `n_nnets` have more; there is no other net.
pub proof fn lemma_read_db_nets_by_size<T: Numeric>(
    lef: &Lef<T>,
    def: &Def<T>,
    scale: T,
    diearea: DieArea<T>,
    r: ReadOutcome<T>,
)
    requires
        read_db_spec(lef, def, scale, diearea, r),
        r is Read,
    ensures
        ({
            let nl = r->Read_0.netlist;
            let n2 = nl.n_2nets as int;
            let n3 = nl.n_3nets as int;
            &&& nl.nets@.len() == nl.n_2nets + nl.n_3nets + nl.n_nnets
            &&& forall|k: int| 0 <= k < n2 ==> (#[trigger] nl.nets@[k]).pin_ids@.len() == 2
            &&& forall|k: int| n2 <= k < n2 + n3 ==> (#[trigger] nl.nets@[k]).pin_ids@.len() == 3
            &&& forall|k: int| n2 + n3 <= k < nl.nets@.len() ==> (#[trigger] nl.nets@[k]).pin_ids@.len() > 3
        }),
{
    let db = r->Read_0;
    let nl = db.netlist;
    let recs = read_instances_spec(lef, def, scale)->Done_0;
    let order = database_order(recs);
    let out = parse_nets_spec(lef, def, parsed_of(order), scale, order.len());
    let groups = out.nets2 + out.nets3 + out.netsn;
    if def.nets is Some {
        let units = lef_def_units_spec(lef, def)->Ok_0;
        let lef_scale = lef_scale_spec(lef, scale)->Ok_0;
        lemma_nets_sizes(lef, def, parsed_of(order), def.nets->Some_0@, units, scale, lef_scale, order.len());
    }
    let n2 = nl.n_2nets as int;
    let n3 = nl.n_3nets as int;
    assert forall|k: int| 0 <= k < nl.nets@.len() implies (#[trigger] nl.nets@[k]).pin_ids@.len() == groups[k].len() by {}
    assert forall|k: int| 0 <= k < n2 implies (#[trigger] nl.nets@[k]).pin_ids@.len() == 2 by {
        assert(groups[k] == out.nets2[k]);
    }
    assert forall|k: int| n2 <= k < n2 + n3 implies (#[trigger] nl.nets@[k]).pin_ids@.len() == 3 by {
        assert(groups[k] == out.nets3[k - n2]);
    }
    assert forall|k: int| n2 + n3 <= k < nl.nets@.len() implies (#[trigger] nl.nets@[k]).pin_ids@.len() > 3 by {
        assert(groups[k] == out.netsn[k - n2 - n3]);
    }
}

/// In a database read from a library and a design, every pin belongs to
/// an existing instance, which lists it among its pins; every instance
/// lists, in increasing order, exactly pins that belong to it.
pub proof fn lemma_read_db_pin_owners<T: Numeric>(
    lef: &Lef<T>,
    def: &Def<T>,
    scale: T,
    diearea: DieArea<T>,
    r: ReadOutcome<T>,
)
    requires
        read_db_spec(lef, def, scale, diearea, r),
        r is Read,
    ensures
        ({
            let db = r->Read_0;
            let nl = db.netlist;
            let n = db.instances.len_spec();
            &&& nl.macro_2_pins@.len() == n
            &&& forall|p: int| 0 <= p < nl.pin_2_macro@.len() ==> #[trigger] nl.pin_2_macro@[p] < n
            &&& forall|p: int|
                0 <= p < nl.pin_2_macro@.len() ==> nl.macro_2_pins@[#[trigger] nl.pin_2_macro@[p] as int]@.contains(
                    p as usize,
                )
            &&& forall|m: int, i: int|
                0 <= m < n && 0 <= i < nl.macro_2_pins@[m]@.len() ==> nl.pin_2_macro@[#[trigger] nl.macro_2_pins@[m]@[i] as int]
                    == m
            &&& forall|m: int, i: int, j: int|
                0 <= m < n && 0 <= i < j < nl.macro_2_pins@[m]@.len() ==> (#[trigger] nl.macro_2_pins@[m]@[i])
                    < (#[trigger] nl.macro_2_pins@[m]@[j])
        }),
{
    let db = r->Read_0;
    let nl = db.netlist;
    let recs = read_instances_spec(lef, def, scale)->Done_0;
    let order = database_order(recs);
    let po = parsed_of(order);
    let out = parse_nets_spec(lef, def, po, scale, order.len());
    let groups = out.nets2 + out.nets3 + out.netsn;
    let b = order.len() + out.terminals.len();
    assert forall|c: int| 0 <= c < po.len() implies (#[trigger] po[c]).id < order.len() by {}
    if def.nets is Some {
        let units = lef_def_units_spec(lef, def)->Ok_0;
        let lef_scale = lef_scale_spec(lef, scale)->Ok_0;
        lemma_nets_below(lef, def, po, def.nets->Some_0@, units, scale, lef_scale, order.len());
    }
    assert(pins_below(groups, b)) by {
        assert forall|i: int, j: int| 0 <= i < groups.len() && 0 <= j < groups[i].len() implies (#[trigger] groups[i][j]).0 < b by {
            if i < out.nets2.len() {
                assert(groups[i] == out.nets2[i]);
            } else if i < out.nets2.len() + out.nets3.len() {
                assert(groups[i] == out.nets3[i - out.nets2.len()]);
            } else {
                assert(groups[i] == out.netsn[i - out.nets2.len() - out.nets3.len()]);
            }
        }
    }
    lemma_concat_below(groups, b);
    assert(instances_hold(db.instances, order, out.terminals));
    lemma_pin_in_its_instance(nl, groups, db.instances.len_spec());
    lemma_instance_pins_belong(nl, groups, db.instances.len_spec());
}


proof fn lemma_filter_count<A>(s: Seq<A>, p: spec_fn(A) -> bool)
    ensures
        s.filter(p).len() == count(s, p),
    decreases s.len(),
{
    reveal(Seq::filter);
    if s.len() > 0 {
        lemma_filter_count(s.drop_last(), p);
    }
}

pub open spec fn is_movable_component() -> spec_fn(crate::lefdef::DefComponent) -> bool {
    |c: crate::lefdef::DefComponent| !c.fixed
}

pub open spec fn is_fixed_component() -> spec_fn(crate::lefdef::DefComponent) -> bool {
    |c: crate::lefdef::DefComponent| c.fixed
}

proof fn lemma_components_records<T: Numeric>(
    lef: &Lef<T>,
    comps: Seq<crate::lefdef::DefComponent>,
    units: T,
    scale: T,
    lef_scale: T,
)
    ensures
        crate::instances_reader::components_outcome(lef, comps, units, scale, lef_scale) matches ComponentsOutcome::Done(recs)
            ==> {
            &&& recs.len() == comps.len()
            &&& count(recs, is_movable_record::<T>()) == count(comps, is_movable_component())
            &&& count(recs, is_fixed_record::<T>()) == count(comps, is_fixed_component())
        },
    decreases comps.len(),
{
    if comps.len() > 0 {
        lemma_components_records(lef, comps.drop_last(), units, scale, lef_scale);
        let out = crate::instances_reader::components_outcome(lef, comps, units, scale, lef_scale);
        if out is Done {
            let recs = out->Done_0;
            assert(recs.drop_last() == crate::instances_reader::components_outcome(
                lef,
                comps.drop_last(),
                units,
                scale,
                lef_scale,
            )->Done_0);
        }
    }
}

/// In a database read from a library and a design, every DEF component
/// is one instance and every I/O pin connection one terminal: the
/// instances that are not terminals are as many as the components, and
/// the movable ones as many as the components not marked fixed.
pub proof fn lemma_read_db_instance_count<T: Numeric>(
    lef: &Lef<T>,
    def: &Def<T>,
    scale: T,
    diearea: DieArea<T>,
    r: ReadOutcome<T>,
)
    requires
        read_db_spec(lef, def, scale, diearea, r),
        r is Read,
    ensures
        ({
            let db = r->Read_0;
            let comps = match def.components {
                Some(c) => c@,
                None => Seq::empty(),
            };
            &&& db.instances.len_spec() - db.num_terminal == comps.len()
            &&& db.num_movable == count(comps, is_movable_component())
            &&& db.num_fixed - db.num_terminal == count(comps, is_fixed_component())
        }),
{
    lemma_read_db_instance_order(lef, def, scale, diearea, r);
    let db = r->Read_0;
    let inst = db.instances;
    let recs = read_instances_spec(lef, def, scale)->Done_0;
    let comps = match def.components {
        Some(c) => c@,
        None => Seq::empty(),
    };
    let units = lef_def_units_spec(lef, def)->Ok_0;
    let lef_scale = lef_scale_spec(lef, scale)->Ok_0;
    lemma_components_records(lef, comps, units, scale, lef_scale);
    if def.components is None {
        assert(recs =~= Seq::<(crate::instances_reader::ParsedInstance<T>, T)>::empty());
        reveal_with_fuel(Seq::filter, 1);
    }
    let pm = is_movable_record::<T>();
    let pf = is_fixed_record::<T>();
    lemma_filter_count(recs, pm);
    lemma_filter_count(recs, pf);
    lemma_count_partition(recs, pm, pf);
    let order = database_order(recs);
    let out = parse_nets_spec(lef, def, parsed_of(order), scale, order.len());
    assert(instances_hold(inst, order, out.terminals));
    // the terminals are the instances from `order.len()` on
    assert forall|j: int| 0 <= j < inst.len_spec() implies (#[trigger] inst.types@[j] == InstanceType::TERMINAL)
        <==> j >= order.len() by {
        if j < order.len() {
            assert(record_at(inst, j, order[j]));
            if def.components is Some {
                lemma_components_not_terminal(lef, comps, units, scale, lef_scale);
            }
            assert forall|i: int| 0 <= i < recs.len() implies not_terminal_record::<T>()(#[trigger] recs[i]) by {
                if def.components is None {
                    assert(recs.len() == 0);
                }
            }
            lemma_filter_keeps(recs, pm, not_terminal_record::<T>());
            lemma_filter_keeps(recs, pf, not_terminal_record::<T>());
            if j < recs.filter(pm).len() {
                assert(order[j] == recs.filter(pm)[j]);
            } else {
                assert(order[j] == recs.filter(pf)[j - recs.filter(pm).len()]);
            }
        } else {
            assert(holds_terminal(inst, order.len() + (j - order.len()), out.terminals[j - order.len()]));
        }
    }
    assert forall|i: int| 0 <= i < inst.len_spec() implies (is_kind(InstanceType::TERMINAL)(#[trigger] inst.types@[i])
        <==> i >= order.len()) by {
        assert(inst.types@[i] == InstanceType::TERMINAL <==> i >= order.len());
    }
    lemma_count_split_rev(inst.types@, is_kind(InstanceType::TERMINAL), order.len() as int);
    assert(inst.types@.take(inst.len_spec() as int) =~= inst.types@);
    assert(db.num_movable == recs.filter(pm).len()) by {
        if db.num_movable != recs.filter(pm).len() {
            if db.num_movable > recs.filter(pm).len() {
                let j = recs.filter(pm).len() as int;
                assert(inst.pl_types@[j] == PlacementType::MOVABLE);
                assert(record_at(inst, j, order[j]));
                assert(order[j] == recs.filter(pf)[0]);
                recs.lemma_filter_pred(pf, 0);
            } else {
                let j = db.num_movable as int;
                assert(record_at(inst, j, order[j]));
                assert(order[j] == recs.filter(pm)[j]);
                recs.lemma_filter_pred(pm, j);
            }
        }
    }
}

proof fn lemma_count_partition<A>(s: Seq<A>, p: spec_fn(A) -> bool, q: spec_fn(A) -> bool)
    requires
        forall|i: int| 0 <= i < s.len() ==> p(#[trigger] s[i]) != q(s[i]),
    ensures
        count(s, p) + count(s, q) == s.len(),
    decreases s.len(),
{
    if s.len() > 0 {
        let init = s.drop_last();
        assert forall|i: int| 0 <= i < init.len() implies p(#[trigger] init[i]) != q(init[i]) by {
            assert(init[i] == s[i]);
        }
        lemma_count_partition(init, p, q);
        assert(p(s[s.len() - 1]) != q(s[s.len() - 1]));
    }
}

/// Starting from an empty table, each instance pushed adds exactly one:
/// after `k` pushes the table holds `k` instances, and it is empty exactly
/// when nothing was pushed. `tables[k]` is the table after `k` pushes.
pub proof fn lemma_pushes_count<T: Numeric>(tables: Seq<VecInstances<T>>)
    requires
        tables.len() >= 1,
        tables[0].wf(),
        tables[0].len_spec() == 0,
        forall|k: int|
            0 <= k < tables.len() - 1 ==> #[trigger] VecInstances::push_step(tables[k], tables[k + 1]),
    ensures
        forall|k: int|
            0 <= k < tables.len() ==> {
                &&& (#[trigger] tables[k]).wf()
                &&& tables[k].len_spec() == k
                &&& (tables[k].len_spec() == 0 <==> k == 0)
            },
    decreases tables.len(),
{
    if tables.len() > 1 {
        let prefix = tables.drop_last();
        assert forall|k: int| 0 <= k < prefix.len() - 1 implies #[trigger] VecInstances::push_step(
            prefix[k],
            prefix[k + 1],
        ) by {
            assert(VecInstances::push_step(tables[k], tables[k + 1]));
        }
        lemma_pushes_count(prefix);
        let before_last = tables.len() - 2;
        let last = before_last + 1;
        assert(VecInstances::push_step(tables[before_last], tables[before_last + 1]));
        assert(prefix[before_last] == tables[before_last]);
        assert forall|k: int| 0 <= k < tables.len() implies {
            &&& (#[trigger] tables[k]).wf()
            &&& tables[k].len_spec() == k
            &&& (tables[k].len_spec() == 0 <==> k == 0)
        } by {
            if k < last {
                assert(prefix[k] == tables[k]);
            }
        }
    }
}

} // verus!
