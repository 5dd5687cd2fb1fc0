//! Body kinds, and the bookkeeping that keeps the pipeline's own read-back
//! from being taken for a change made by the user.
use vstd::prelude::*;

use std::collections::HashMap;

use crate::registry::Entity;

verus! {

broadcast use vstd::std_specs::hash::group_hash_axioms;

#[allow(non_camel_case_types)]
#[derive(Clone, Copy, Debug, PartialEq, Eq, Structural)]
pub enum b2BodyType {
    Static,
    Kinematic,
    Dynamic,
}

impl Default for b2BodyType {
    fn default() -> (r: b2BodyType)
        ensures
            r == b2BodyType::Static,
    {
        b2BodyType::Static
    }
}

/// For each body, the change generation of its record that the pipeline
/// itself last wrote (on creation and on read-back). A record whose current
/// generation differs was changed by someone else since, and that change is
/// pushed to the native body.
pub struct BodyChangeTracker {
    last_sync_ticks: HashMap<u64, u64>,
}

impl View for BodyChangeTracker {
    type V = Map<Entity, u64>;

    closed spec fn view(&self) -> Map<Entity, u64> {
        self.last_sync_ticks@
    }
}

/// A body record at `generation` must be written to the native body unless
/// the pipeline itself produced that generation.
pub open spec fn write_back_needed(synced: Map<Entity, u64>, entity: Entity, generation: u64) -> bool {
    !(synced.contains_key(entity) && synced[entity] == generation)
}

impl BodyChangeTracker {
    pub fn new() -> (r: BodyChangeTracker)
        ensures
            r@ == Map::<Entity, u64>::empty(),
    {
        BodyChangeTracker { last_sync_ticks: HashMap::new() }
    }

    /// Notes that the pipeline wrote the record of `entity` at `generation`.
    pub fn record_sync(&mut self, entity: Entity, generation: u64)
        ensures
            final(self)@ == old(self)@.insert(entity, generation),
    {
        self.last_sync_ticks.insert(entity, generation);
    }

    /// Forgets a destroyed body.
    pub fn forget(&mut self, entity: Entity)
        ensures
            final(self)@ == old(self)@.remove(entity),
    {
        self.last_sync_ticks.remove(&entity);
    }

    /// Whether the record of `entity`, now at `generation`, carries a change
    /// that the native body has not seen.
    pub fn needs_write_back(&self, entity: Entity, generation: u64) -> (r: bool)
        ensures
            r == write_back_needed(self@, entity, generation),
    {
        match self.last_sync_ticks.get(&entity) {
            Some(t) => *t != generation,
            None => true,
        }
    }
}

/// Right after the pipeline records its own write, that generation needs no
/// write-back, while any other generation of the same record does.
pub proof fn lemma_own_write_is_not_a_change(
    synced: Map<Entity, u64>,
    entity: Entity,
    generation: u64,
    other: u64,
)
    requires
        other != generation,
    ensures
        !write_back_needed(synced.insert(entity, generation), entity, generation),
        write_back_needed(synced.insert(entity, generation), entity, other),
{
}

} // verus!
