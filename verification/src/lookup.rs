use vstd::prelude::*;

use crate::lefdef::{DefPin, LefMacro, LefPin};
use crate::name_index::{NameIndex, named, names_of};

verus! {

/// Index of the last element of `s` that satisfies `p`.
pub open spec fn last_index<A>(s: Seq<A>, p: spec_fn(A) -> bool) -> Option<int>
    decreases s.len(),
{
    if s.len() == 0 {
        None
    } else if p(s.last()) {
        Some(s.len() - 1)
    } else {
        last_index(s.drop_last(), p)
    }
}

/// Index of the first element of `s` that satisfies `p`.
pub open spec fn first_index<A>(s: Seq<A>, p: spec_fn(A) -> bool) -> Option<int>
    decreases s.len(),
{
    if s.len() == 0 {
        None
    } else {
        match first_index(s.drop_last(), p) {
            Some(k) => Some(k),
            None => if p(s.last()) {
                Some(s.len() - 1)
            } else {
                None
            },
        }
    }
}

/// When nothing from index `i` on satisfies `p`, the last match lies in
/// the first `i` elements.
pub proof fn lemma_last_index_take<A>(s: Seq<A>, p: spec_fn(A) -> bool, i: int)
    requires
        0 <= i <= s.len(),
        forall|j: int| i <= j < s.len() ==> !p(#[trigger] s[j]),
    ensures
        last_index(s, p) == last_index(s.take(i), p),
    decreases s.len() - i,
{
    if i == s.len() {
        assert(s.take(i) =~= s);
    } else {
        lemma_last_index_take(s, p, i + 1);
        assert(s.take(i + 1).drop_last() =~= s.take(i));
        assert(s.take(i + 1).last() == s[i]);
    }
}

/// A first match found in a prefix is the first match of the whole.
pub proof fn lemma_first_index_extend<A>(s: Seq<A>, p: spec_fn(A) -> bool, i: int)
    requires
        0 <= i <= s.len(),
        first_index(s.take(i), p) is Some,
    ensures
        first_index(s, p) == first_index(s.take(i), p),
    decreases s.len() - i,
{
    if i == s.len() {
        assert(s.take(i) =~= s);
    } else {
        assert(s.drop_last().take(i) =~= s.take(i));
        lemma_first_index_extend(s.drop_last(), p, i);
    }
}

/// `first_index` result lies in range and satisfies `p`.
pub proof fn lemma_first_index_found<A>(s: Seq<A>, p: spec_fn(A) -> bool)
    ensures
        first_index(s, p) matches Some(k) ==> 0 <= k < s.len() && p(s[k]),
    decreases s.len(),
{
    if s.len() > 0 {
        lemma_first_index_found(s.drop_last(), p);
    }
}

/// `last_index` result lies in range and satisfies `p`.
pub proof fn lemma_last_index_found<A>(s: Seq<A>, p: spec_fn(A) -> bool)
    ensures
        last_index(s, p) matches Some(k) ==> 0 <= k < s.len() && p(s[k]),
    decreases s.len(),
{
    if s.len() > 0 {
        lemma_last_index_found(s.drop_last(), p);
    }
}

pub open spec fn macro_named<T>(name: Seq<char>) -> spec_fn(LefMacro<T>) -> bool {
    |m: LefMacro<T>| m.name@ == name
}

pub open spec fn lef_pin_named<T>(name: Seq<char>) -> spec_fn(LefPin<T>) -> bool {
    |p: LefPin<T>| p.name@ == name
}

pub open spec fn def_pin_named<T>(name: Seq<char>) -> spec_fn(DefPin<T>) -> bool {
    |p: DefPin<T>| p.name@ == name
}

/// The macro a name refers to: the last one of that name, as a map
/// filled in file order keeps it.
pub fn find_macro<T>(index: &NameIndex, macros: &Vec<LefMacro<T>>, name: &String) -> (r: Option<usize>)
    requires
        index.indexes(names_of(macros@)),
    ensures
        r matches Some(k) ==> last_index(macros@, macro_named::<T>(name@)) == Some(k as int),
        r is None ==> last_index(macros@, macro_named::<T>(name@)) is None,
{
    assert(named::<LefMacro<T>>(name@) =~= macro_named::<T>(name@));
    index.find_last(macros, name)
}

/// The I/O pin a name refers to: the last one of that name.
pub fn find_def_pin<T>(index: &NameIndex, pins: &Vec<DefPin<T>>, name: &String) -> (r: Option<usize>)
    requires
        index.indexes(names_of(pins@)),
    ensures
        r matches Some(k) ==> last_index(pins@, def_pin_named::<T>(name@)) == Some(k as int),
        r is None ==> last_index(pins@, def_pin_named::<T>(name@)) is None,
{
    assert(named::<DefPin<T>>(name@) =~= def_pin_named::<T>(name@));
    index.find_last(pins, name)
}

/// The pin of a macro a name refers to: the first one of that name.
pub fn find_lef_pin<T>(pins: &Vec<LefPin<T>>, name: &String) -> (r: Option<usize>)
    ensures
        r matches Some(k) ==> first_index(pins@, lef_pin_named::<T>(name@)) == Some(k as int),
        r is None ==> first_index(pins@, lef_pin_named::<T>(name@)) is None,
{
    let ghost p = lef_pin_named::<T>(name@);
    let mut i: usize = 0;
    while i < pins.len()
        invariant
            i <= pins@.len(),
            p == lef_pin_named::<T>(name@),
            first_index(pins@.take(i as int), p) is None,
        decreases pins@.len() - i,
    {
        if pins[i].name == *name {
            proof {
                assert(pins@.take(i + 1).drop_last() =~= pins@.take(i as int));
                assert(pins@.take(i + 1).last() == pins@[i as int]);
                lemma_first_index_extend(pins@, p, i + 1);
            }
            return Some(i);
        }
        proof {
            assert(pins@.take(i + 1).drop_last() =~= pins@.take(i as int));
        }
        i = i + 1;
    }
    proof {
        assert(pins@.take(i as int) =~= pins@);
    }
    None
}

} // verus!
