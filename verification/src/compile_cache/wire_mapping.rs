//! What each wire of a compiled circuit is mapped to.

use cranelift_entity::SecondaryMap;
use vstd::prelude::*;

use crate::constraint_system::ValueIndex;
use crate::ir::Wire;

verus! {

/// A value index for every wire, in a `SecondaryMap` of the `cranelift_entity` crate.
#[verifier::external_body]
pub struct WireMapping {
    inner: SecondaryMap<Wire, ValueIndex>,
}

/// The value index of every wire, by the wire's index.
pub uninterp spec fn mapped_values(mapping: WireMapping) -> Map<usize, ValueIndex>;

/// The mapping that gives every wire one value index.
pub open spec fn constant_map(default: ValueIndex) -> Map<usize, ValueIndex> {
    Map::new(|index: usize| true, |index: usize| default)
}

/// `SecondaryMap::with_default`. Claimed: every wire has the default.
#[verifier::external_body]
fn secondary_map_with_default(default: ValueIndex) -> (mapping: WireMapping)
    ensures
        mapped_values(mapping) == constant_map(default),
{
    WireMapping { inner: SecondaryMap::with_default(default) }
}

/// `SecondaryMap`'s `IndexMut`. Claimed: the wire has the value index afterwards, and every other
/// wire has the one that it had. Nothing is said of running out of memory, as of a vector that
/// grows: the map holds an entry for each wire up to this one.
#[verifier::external_body]
fn secondary_map_set(mapping: &mut WireMapping, wire: Wire, value_index: ValueIndex)
    requires
        wire.index < usize::MAX,
    ensures
        mapped_values(*final(mapping)) == mapped_values(*old(mapping)).insert(
            wire.index,
            value_index,
        ),
{
    mapping.inner[wire] = value_index;
}

/// `SecondaryMap`'s `Index`. Claimed: it is the wire's value index.
#[verifier::external_body]
fn secondary_map_get(mapping: &WireMapping, wire: Wire) -> (value_index: ValueIndex)
    ensures
        value_index == mapped_values(*mapping)[wire.index],
{
    mapping.inner[wire]
}

impl View for WireMapping {
    type V = Map<usize, ValueIndex>;

    open spec fn view(&self) -> Map<usize, ValueIndex> {
        mapped_values(*self)
    }
}

impl WireMapping {
    /// The mapping that gives every wire one value index.
    pub fn with_default(default: ValueIndex) -> (mapping: Self)
        ensures
            mapping@ == constant_map(default),
    {
        secondary_map_with_default(default)
    }

    /// Gives a wire another value index.
    pub fn set(&mut self, wire: Wire, value_index: ValueIndex)
        requires
            wire.index < usize::MAX,
        ensures
            final(self)@ == old(self)@.insert(wire.index, value_index),
    {
        secondary_map_set(self, wire, value_index)
    }

    /// The value index of a wire.
    pub fn get(&self, wire: Wire) -> (value_index: ValueIndex)
        ensures
            value_index == self@[wire.index],
    {
        secondary_map_get(self, wire)
    }
}

} // verus!
