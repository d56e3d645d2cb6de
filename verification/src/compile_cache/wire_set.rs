//! Sets of wires.

use cranelift_entity::EntitySet;
use vstd::prelude::*;

use crate::ir::Wire;

verus! {

/// A set of wires, in an `EntitySet` of the `cranelift_entity` crate.
#[verifier::external_body]
pub struct WireSet {
    inner: EntitySet<Wire>,
}

/// The indices of the wires that a set holds.
pub uninterp spec fn wire_indices(set: WireSet) -> Set<usize>;

/// `EntitySet::new`. Claimed: the set is empty.
#[verifier::external_body]
fn entity_set_new() -> (set: WireSet)
    ensures
        wire_indices(set) == Set::<usize>::empty(),
{
    WireSet { inner: EntitySet::new() }
}

/// `EntitySet::insert`. Claimed: the wire is in the set afterwards, with the wires that were in it;
/// the result says whether it was not in it before.
#[verifier::external_body]
fn entity_set_insert(set: &mut WireSet, wire: Wire) -> (new: bool)
    requires
        wire.index < u32::MAX,
    ensures
        wire_indices(*final(set)) == wire_indices(*old(set)).insert(wire.index),
        new == !wire_indices(*old(set)).contains(wire.index),
{
    set.inner.insert(wire)
}

/// `EntitySet::iter`. Claimed: it yields every wire of the set once, by ascending index.
#[verifier::external_body]
fn entity_set_iter(set: &WireSet) -> (wires: Vec<Wire>)
    ensures
        forall|i: int, j: int|
            0 <= i < j < wires@.len() ==> (#[trigger] wires@[i]).index < (
            #[trigger] wires@[j]).index,
        forall|index: usize| #[trigger]
            wire_indices(*set).contains(index) <==> exists|i: int|
                0 <= i < wires@.len() && (#[trigger] wires@[i]).index == index,
{
    set.inner.iter().collect()
}

impl View for WireSet {
    type V = Set<usize>;

    open spec fn view(&self) -> Set<usize> {
        wire_indices(*self)
    }
}

/// Whether a list names the wires of a set, each once and by ascending index.
pub open spec fn lists_wires(set: Set<usize>, wires: Seq<Wire>) -> bool {
    &&& forall|i: int, j: int|
        0 <= i < j < wires.len() ==> (#[trigger] wires[i]).index < (#[trigger] wires[j]).index
    &&& forall|index: usize| #[trigger]
        set.contains(index) <==> exists|i: int|
            0 <= i < wires.len() && (#[trigger] wires[i]).index == index
}

/// The wires of a set, by ascending index.
pub open spec fn ascending_wires(set: Set<usize>) -> Seq<Wire> {
    choose|wires: Seq<Wire>| #[trigger] lists_wires(set, wires)
}

/// A set has one list of its wires by ascending index.
pub proof fn lemma_lists_wires_unique(set: Set<usize>, a: Seq<Wire>, b: Seq<Wire>)
    requires
        lists_wires(set, a),
        lists_wires(set, b),
    ensures
        a == b,
    decreases a.len(),
{
    if a.len() == 0 || b.len() == 0 {
        if a.len() > 0 {
            assert(set.contains(a[0].index));
        }
        if b.len() > 0 {
            assert(set.contains(b[0].index));
        }
        assert(a =~= b);
    } else {
        let x = a[a.len() - 1];
        let y = b[b.len() - 1];
        assert(set.contains(x.index) && set.contains(y.index));
        let i = choose|i: int| 0 <= i < b.len() && (#[trigger] b[i]).index == x.index;
        let j = choose|j: int| 0 <= j < a.len() && (#[trigger] a[j]).index == y.index;
        assert(x.index <= y.index && y.index <= x.index);
        assert(x == y);
        let c = a.drop_last();
        let d = b.drop_last();
        let smaller = set.remove(x.index);
        lemma_drop_last_lists(set, a);
        lemma_drop_last_lists(set, b);
        lemma_lists_wires_unique(smaller, c, d);
        assert(a =~= c.push(x));
        assert(b =~= d.push(y));
    }
}

proof fn lemma_drop_last_lists(set: Set<usize>, a: Seq<Wire>)
    requires
        lists_wires(set, a),
        a.len() > 0,
    ensures
        lists_wires(set.remove(a.last().index), a.drop_last()),
{
    let c = a.drop_last();
    let smaller = set.remove(a.last().index);
    assert forall|index: usize| #[trigger] smaller.contains(index) implies exists|i: int|
        0 <= i < c.len() && (#[trigger] c[i]).index == index by {
        assert(set.contains(index));
        let i = choose|i: int| 0 <= i < a.len() && (#[trigger] a[i]).index == index;
        assert(c[i] == a[i]);
    }
    assert forall|index: usize|
        (exists|i: int| 0 <= i < c.len() && (#[trigger] c[i]).index
            == index) implies #[trigger] smaller.contains(
        index,
    ) by {
        let i = choose|i: int| 0 <= i < c.len() && (#[trigger] c[i]).index == index;
        assert(a[i] == c[i]);
        assert(a[i].index < a[a.len() - 1].index);
        assert(set.contains(index));
    }
}

impl WireSet {
    /// A set without wires.
    pub fn new() -> (set: Self)
        ensures
            set@ == Set::<usize>::empty(),
    {
        entity_set_new()
    }

    /// Adds a wire. The result says whether it was not in the set before.
    pub fn insert(&mut self, wire: Wire) -> (new: bool)
        requires
            wire.index < u32::MAX,
        ensures
            final(self)@ == old(self)@.insert(wire.index),
            new == !old(self)@.contains(wire.index),
    {
        entity_set_insert(self, wire)
    }

    /// The wires, by ascending index.
    pub fn iter(&self) -> (wires: Vec<Wire>)
        ensures
            lists_wires(self@, wires@),
            wires@ == ascending_wires(self@),
    {
        let wires = entity_set_iter(self);
        proof {
            assert(lists_wires(self@, wires@));
            lemma_lists_wires_unique(self@, wires@, ascending_wires(self@));
        }
        wires
    }
}

} // verus!
