use vstd::prelude::*;

use crate::columns::VecCoords;
use crate::geometry::{Coords, Size};
use crate::numeric::{Numeric, sum_seq};

verus! {

/// A pin as a net names it: the instance it belongs to, its offset from
/// that instance, and its size.
pub type RawPin<T> = (usize, Coords<T>, Size<T>);

/// A numbered pin of the netlist.
#[derive(Debug)]
pub struct ParsedPin<T: Numeric> {
    /// ID of the pin.
    pub pin_id: usize,
    /// ID of the instance (macro) of this pin.
    pub macro_id: usize,
    /// Offset from the instance.
    pub offset: Coords<T>,
    /// Size of the pin.
    pub size: Size<T>,
}

impl<T: Numeric> ParsedPin<T> {
    pub fn new(pin_id: usize, macro_id: usize, offset: Coords<T>, size: Size<T>) -> (r: Self)
        ensures
            r == (ParsedPin { pin_id, macro_id, offset, size }),
    {
        Self { pin_id, macro_id, offset, size }
    }
}

/// A net: the IDs of the pins it connects.
#[derive(Debug)]
pub struct Net {
    pub pin_ids: Vec<usize>,
}

impl Net {
    pub fn new(pin_ids: Vec<usize>) -> (r: Self)
        ensures
            r.pin_ids@ == pin_ids@,
    {
        Self { pin_ids }
    }
}

/// The pins and nets of a design.
///
/// Nets come ordered by their number of pins: first those with 2 pins,
/// then those with 3, then those with more.  Pins are numbered in the
/// order in which the nets list them.
#[derive(Debug)]
pub struct Netlist<T: Numeric> {
    pub parsed_pins: Vec<ParsedPin<T>>,
    pub pins: VecCoords<T>,
    pub pin_2_macro: Vec<usize>,
    pub macro_2_pins: Vec<Vec<usize>>,
    pub nets: Vec<Net>,
    /// Number of nets with 2 pins.
    pub n_2nets: usize,
    /// Number of nets with 3 pins.
    pub n_3nets: usize,
    /// Number of nets with more than 3 pins.
    pub n_nnets: usize,
}

impl<T: Numeric> Netlist<T> {
    #[allow(clippy::too_many_arguments)]
    pub fn new(
        parsed_pins: Vec<ParsedPin<T>>,
        pins: VecCoords<T>,
        pin_2_macro: Vec<usize>,
        macro_2_pins: Vec<Vec<usize>>,
        nets: Vec<Net>,
        n_2nets: usize,
        n_3nets: usize,
        n_nnets: usize,
    ) -> (r: Self)
        ensures
            r == (Netlist { parsed_pins, pins, pin_2_macro, macro_2_pins, nets, n_2nets, n_3nets, n_nnets }),
    {
        Self { parsed_pins, pins, pin_2_macro, macro_2_pins, nets, n_2nets, n_3nets, n_nnets }
    }
}

/// The contents of a list of nets, each a vector of pins.
pub open spec fn nets_view<T>(v: Seq<Vec<RawPin<T>>>) -> Seq<Seq<RawPin<T>>> {
    v.map_values(|x: Vec<RawPin<T>>| x@)
}

/// All pins of all nets, net after net.
pub open spec fn concat_pins<T>(groups: Seq<Seq<RawPin<T>>>) -> Seq<RawPin<T>>
    decreases groups.len(),
{
    if groups.len() == 0 {
        Seq::empty()
    } else {
        concat_pins(groups.drop_last()) + groups.last()
    }
}

/// Number of the first pin of net `k`: how many pins the nets before it have.
pub open spec fn net_start<T>(groups: Seq<Seq<RawPin<T>>>, k: int) -> nat {
    concat_pins(groups.take(k)).len()
}

/// The numbers of the pins of `flat` that belong to instance `m`, ascending.
pub open spec fn pins_of_macro<T>(flat: Seq<RawPin<T>>, m: int) -> Seq<usize>
    decreases flat.len(),
{
    if flat.len() == 0 {
        Seq::empty()
    } else {
        let rest = pins_of_macro(flat.drop_last(), m);
        if flat.last().0 == m {
            rest.push((flat.len() - 1) as usize)
        } else {
            rest
        }
    }
}

/// What the netlist built from the nets `groups` (in that order) holds,
/// for a design of `n_inst` instances.
pub open spec fn is_netlist_of<T: Numeric>(nl: Netlist<T>, groups: Seq<Seq<RawPin<T>>>, n_inst: nat) -> bool {
    let flat = concat_pins(groups);
    &&& nl.parsed_pins@.len() == flat.len()
    &&& nl.pins.x@.len() == flat.len()
    &&& nl.pins.y@.len() == flat.len()
    &&& nl.pin_2_macro@.len() == flat.len()
    &&& forall|p: int|
        0 <= p < flat.len() ==> {
            &&& #[trigger] nl.parsed_pins@[p] == ParsedPin {
                pin_id: p as usize,
                macro_id: flat[p].0,
                offset: flat[p].1,
                size: flat[p].2,
            }
            &&& nl.pins.x@[p] == flat[p].1.x
            &&& nl.pins.y@[p] == flat[p].1.y
            &&& nl.pin_2_macro@[p] == flat[p].0
        }
    &&& nl.macro_2_pins@.len() == n_inst
    &&& forall|m: int| 0 <= m < n_inst ==> (#[trigger] nl.macro_2_pins@[m])@ == pins_of_macro(flat, m)
    &&& nl.nets@.len() == groups.len()
    &&& forall|k: int|
        0 <= k < groups.len() ==> (#[trigger] nl.nets@[k]).pin_ids@ == Seq::new(
            groups[k].len(),
            |j: int| (net_start(groups, k) + j) as usize,
        )
}

proof fn lemma_concat_take_succ<T>(groups: Seq<Seq<RawPin<T>>>, k: int)
    requires
        0 <= k < groups.len(),
    ensures
        concat_pins(groups.take(k + 1)) == concat_pins(groups.take(k)) + groups[k],
{
    assert(groups.take(k + 1).drop_last() =~= groups.take(k));
}

/// Numbers the pins of the nets `t2nets`, `t3nets`, `tnnets` (the nets
/// with 2, 3 and more pins) in that order, and records which instance
/// each pin belongs to and which pins each of the `n_instances` instances
/// has.
pub fn build_netlist<T: Numeric>(
    t2nets: Vec<Vec<RawPin<T>>>,
    t3nets: Vec<Vec<RawPin<T>>>,
    tnnets: Vec<Vec<RawPin<T>>>,
    n_instances: usize,
) -> (r: Netlist<T>)
    requires
        forall|p: int|
            0 <= p < concat_pins(nets_view(t2nets@) + nets_view(t3nets@) + nets_view(tnnets@)).len()
                ==> (#[trigger] concat_pins(nets_view(t2nets@) + nets_view(t3nets@) + nets_view(tnnets@))[p]).0
                < n_instances,
    ensures
        is_netlist_of(r, nets_view(t2nets@) + nets_view(t3nets@) + nets_view(tnnets@), n_instances as nat),
        r.n_2nets == t2nets.len(),
        r.n_3nets == t3nets.len(),
        r.n_nnets == tnnets.len(),
{
    let ghost groups = nets_view(t2nets@) + nets_view(t3nets@) + nets_view(tnnets@);
    let ghost flat = concat_pins(groups);
    let n_2nets = t2nets.len();
    let n_3nets = t3nets.len();
    let n_nnets = tnnets.len();

    let mut all = t2nets;
    let mut t3 = t3nets;
    let mut tn = tnnets;
    all.append(&mut t3);
    all.append(&mut tn);
    assert(nets_view(all@) =~= groups);

    let mut pin_id: usize = 0;
    let mut parsed_pins: Vec<ParsedPin<T>> = Vec::new();
    let mut pins_x: Vec<T> = Vec::new();
    let mut pins_y: Vec<T> = Vec::new();
    let mut pin_2_macro: Vec<usize> = Vec::new();
    let mut macro_2_pins: Vec<Vec<usize>> = Vec::new();
    let mut nets: Vec<Net> = Vec::new();

    let mut m: usize = 0;
    while m < n_instances
        invariant
            m <= n_instances,
            macro_2_pins@.len() == m,
            forall|q: int| 0 <= q < m ==> (#[trigger] macro_2_pins@[q])@ == Seq::<usize>::empty(),
        decreases n_instances - m,
    {
        macro_2_pins.push(Vec::new());
        m = m + 1;
    }
    assert(concat_pins(groups.take(0)) =~= Seq::<RawPin<T>>::empty());

    let mut k: usize = 0;
    while k < all.len()
        invariant
            k <= all@.len(),
            nets_view(all@) == groups,
            flat == concat_pins(groups),
            forall|p: int| 0 <= p < flat.len() ==> (#[trigger] flat[p]).0 < n_instances,
            pin_id == concat_pins(groups.take(k as int)).len(),
            parsed_pins@.len() == pin_id,
            pins_x@.len() == pin_id,
            pins_y@.len() == pin_id,
            pin_2_macro@.len() == pin_id,
            macro_2_pins@.len() == n_instances,
            nets@.len() == k,
            forall|p: int|
                0 <= p < pin_id ==> {
                    &&& #[trigger] parsed_pins@[p] == ParsedPin {
                        pin_id: p as usize,
                        macro_id: concat_pins(groups.take(k as int))[p].0,
                        offset: concat_pins(groups.take(k as int))[p].1,
                        size: concat_pins(groups.take(k as int))[p].2,
                    }
                    &&& pins_x@[p] == concat_pins(groups.take(k as int))[p].1.x
                    &&& pins_y@[p] == concat_pins(groups.take(k as int))[p].1.y
                    &&& pin_2_macro@[p] == concat_pins(groups.take(k as int))[p].0
                },
            forall|q: int|
                0 <= q < n_instances ==> (#[trigger] macro_2_pins@[q])@ == pins_of_macro(
                    concat_pins(groups.take(k as int)),
                    q,
                ),
            forall|i: int|
                0 <= i < k ==> (#[trigger] nets@[i]).pin_ids@ == Seq::new(
                    groups[i].len(),
                    |j: int| (net_start(groups, i) + j) as usize,
                ),
        decreases all@.len() - k,
    {
        let ghost before = concat_pins(groups.take(k as int));
        proof {
            lemma_concat_take_succ(groups, k as int);
        }
        let ghost after = concat_pins(groups.take(k + 1));
        assert(after == before + groups[k as int]);
        proof {
            lemma_concat_prefix(groups, k + 1);
            assert forall|p: int| 0 <= p < after.len() implies (#[trigger] after[p]).0 < n_instances by {
                assert(after[p] == flat[p]);
            }
            assert(after.take(pin_id as int) =~= before);
        }
        let net_pins = &all[k];
        assert(net_pins@ == groups[k as int]);
        let mut net_pin_ids: Vec<usize> = Vec::new();
        let mut j: usize = 0;
        while j < net_pins.len()
            invariant
                j <= net_pins@.len(),
                net_pins@ == groups[k as int],
                before == concat_pins(groups.take(k as int)),
                after == before + groups[k as int],
                after == concat_pins(groups.take(k + 1)),
                after.len() <= flat.len(),
                forall|p: int| 0 <= p < after.len() ==> (#[trigger] after[p]).0 < n_instances,
                pin_id == before.len() + j,
                parsed_pins@.len() == pin_id,
                pins_x@.len() == pin_id,
                pins_y@.len() == pin_id,
                pin_2_macro@.len() == pin_id,
                macro_2_pins@.len() == n_instances,
                forall|p: int|
                    0 <= p < pin_id ==> {
                        &&& #[trigger] parsed_pins@[p] == ParsedPin {
                            pin_id: p as usize,
                            macro_id: after[p].0,
                            offset: after[p].1,
                            size: after[p].2,
                        }
                        &&& pins_x@[p] == after[p].1.x
                        &&& pins_y@[p] == after[p].1.y
                        &&& pin_2_macro@[p] == after[p].0
                    },
                forall|q: int|
                    0 <= q < n_instances ==> (#[trigger] macro_2_pins@[q])@ == pins_of_macro(
                        after.take(pin_id as int),
                        q,
                    ),
                net_pin_ids@ == Seq::new(j as nat, |i: int| (before.len() + i) as usize),
            decreases net_pins@.len() - j,
        {
            let pin = net_pins[j];
            let id = pin_id;
            let macro_id = pin.0;
            let coords = pin.1;
            assert(after[id as int] == pin);
            pins_x.push(coords.x);
            pins_y.push(coords.y);
            parsed_pins.push(ParsedPin::new(id, macro_id, coords, pin.2));
            pin_2_macro.push(macro_id);
            proof {
                assert(after.take(id + 1).drop_last() =~= after.take(id as int));
                assert forall|q: int| 0 <= q < n_instances && q != macro_id implies
                    (#[trigger] macro_2_pins@[q])@ == pins_of_macro(after.take(id + 1), q) by {}
            }
            macro_2_pins[macro_id].push(id);
            net_pin_ids.push(id);
            pin_id = parsed_pins.len();
            j = j + 1;
            assert(net_pin_ids@ =~= Seq::new(j as nat, |i: int| (before.len() + i) as usize));
        }
        assert(after.take(pin_id as int) =~= after);
        nets.push(Net::new(net_pin_ids));
        k = k + 1;
    }
    assert(groups.take(all@.len() as int) =~= groups);
    let pins = VecCoords::new(pins_x, pins_y);
    Netlist::new(parsed_pins, pins, pin_2_macro, macro_2_pins, nets, n_2nets, n_3nets, n_nnets)
}

/// Concatenating fewer nets gives no more pins.
proof fn lemma_concat_prefix<T>(groups: Seq<Seq<RawPin<T>>>, k: int)
    requires
        0 <= k <= groups.len(),
    ensures
        concat_pins(groups.take(k)).len() <= concat_pins(groups).len(),
        forall|p: int| 0 <= p < concat_pins(groups.take(k)).len() ==>
            #[trigger] concat_pins(groups.take(k))[p] == concat_pins(groups)[p],
    decreases groups.len() - k,
{
    if k == groups.len() {
        assert(groups.take(k) =~= groups);
    } else {
        lemma_concat_prefix(groups, k + 1);
        lemma_concat_take_succ(groups, k);
        assert forall|p: int| 0 <= p < concat_pins(groups.take(k)).len() implies
            #[trigger] concat_pins(groups.take(k))[p] == concat_pins(groups)[p] by {
            assert(concat_pins(groups.take(k + 1))[p] == concat_pins(groups.take(k))[p]);
        }
    }
}

/// Whether the nets name no more pins than the instances have: the
/// sanity condition `pins in nets <= sum of instance pin counts`.
pub open spec fn pins_fit_spec<T: Numeric>(n_pins: nat, num_pins: Seq<T>) -> bool {
    T::from_usize_spec(n_pins as usize).le_spec(sum_seq(num_pins))
}

/// Left-to-right sum of scalars.
pub fn sum_values<T: Numeric>(v: &Vec<T>) -> (r: T)
    ensures
        r == sum_seq(v@),
{
    let mut acc = T::zero();
    let mut i: usize = 0;
    while i < v.len()
        invariant
            i <= v@.len(),
            acc == sum_seq(v@.take(i as int)),
        decreases v@.len() - i,
    {
        proof {
            assert(v@.take(i + 1).drop_last() =~= v@.take(i as int));
        }
        acc = acc.add(v[i]);
        i = i + 1;
    }
    assert(v@.take(i as int) =~= v@);
    acc
}

/// Checks that `n_pins` pins fit in the pins the instances declare.
pub fn pins_fit<T: Numeric>(n_pins: usize, num_pins: &Vec<T>) -> (r: bool)
    ensures
        r == pins_fit_spec(n_pins as nat, num_pins@),
{
    let total = sum_values(num_pins);
    T::from_usize(n_pins).le(total)
}

} // verus!
