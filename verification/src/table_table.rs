//! The capability interface of an entity store: a mapping from entity
//! identity to that entity's [`Table`] of components.
//!
//! Two backends implement it — [`crate::hash_map_table_table::HashMapTableTable`]
//! (one table per entity, stored directly) and
//! [`crate::flat_table_table::FlatTableTable`] (all (entity, discriminant)
//! pairs flattened into one store with reverse indices). Both are specified
//! against the same abstract view, a map from entity id to component map, so
//! callers can be verified once against the trait.

use vstd::prelude::*;
use crate::assoc::{assoc_map, distinct_keys};
use crate::entity::{Component, ComponentType, EntityId, Vector2};
use crate::table::{spec_position, Table};

verus! {

/// An owning store of every live entity's components.
pub trait EntityTable: Sized {
    /// The abstract contents: entity id to component map.
    spec fn contents(&self) -> Map<EntityId, Map<ComponentType, Component>>;

    /// The backend's internal well-formedness.
    spec fn inv(&self) -> bool;

    /// Install a whole table under `id`. A table already stored under `id`
    /// is displaced and returned whole; there is no merge.
    fn add(&mut self, id: EntityId, table: Table) -> (displaced: Option<Table>)
        requires
            old(self).inv(),
            table.wf(),
        ensures
            final(self).inv(),
            final(self).contents() == old(self).contents().insert(id, table@),
            match displaced {
                Some(d) => d.wf() && old(self).contents().contains_key(id)
                    && d@ == old(self).contents()[id],
                None => !old(self).contents().contains_key(id),
            },
    ;

    /// Evict and return the whole table stored under `id`, if any.
    fn remove(&mut self, id: EntityId) -> (removed: Option<Table>)
        requires
            old(self).inv(),
        ensures
            final(self).inv(),
            final(self).contents() == old(self).contents().remove(id),
            match removed {
                Some(d) => d.wf() && old(self).contents().contains_key(id)
                    && d@ == old(self).contents()[id],
                None => !old(self).contents().contains_key(id),
            },
    ;

    /// Whether an entity is currently live.
    fn contains_id(&self, id: EntityId) -> (r: bool)
        requires
            self.inv(),
        ensures
            r == self.contents().contains_key(id),
    ;

    /// The component of discriminant `entry_type` held by entity `id`, if
    /// the entity is live and holds one.
    fn get_component(&self, id: EntityId, entry_type: ComponentType) -> (r: Option<&Component>)
        requires
            self.inv(),
        ensures
            match r {
                Some(c) => self.contents().contains_key(id)
                    && self.contents()[id].contains_key(entry_type)
                    && *c == self.contents()[id][entry_type],
                None => !self.contents().contains_key(id)
                    || !self.contents()[id].contains_key(entry_type),
            },
    ;

    /// A snapshot of a live entity's components as (discriminant, component)
    /// pairs, each discriminant once, in unspecified order.
    fn components_of(&self, id: EntityId) -> (r: Vec<(ComponentType, Component)>)
        requires
            self.inv(),
            self.contents().contains_key(id),
        ensures
            distinct_keys(r@),
            assoc_map(r@) == self.contents()[id],
            forall|i: int| 0 <= i < r@.len() ==> (#[trigger] r@[i]).0 == r@[i].1.to_type(),
    ;

    /// Insert one component into a live entity's table, displacing any
    /// component of the same discriminant.
    fn add_component(&mut self, id: EntityId, entry: Component) -> (displaced: Option<Component>)
        requires
            old(self).inv(),
            old(self).contents().contains_key(id),
        ensures
            final(self).inv(),
            final(self).contents() == old(self).contents().insert(
                id,
                old(self).contents()[id].insert(entry.to_type(), entry),
            ),
            match displaced {
                Some(c) => old(self).contents()[id].contains_key(entry.to_type())
                    && c == old(self).contents()[id][entry.to_type()],
                None => !old(self).contents()[id].contains_key(entry.to_type()),
            },
    ;

    /// Remove one component, by discriminant, from a live entity's table.
    fn remove_component(&mut self, id: EntityId, entry_type: ComponentType) -> (removed: Option<
        Component,
    >)
        requires
            old(self).inv(),
            old(self).contents().contains_key(id),
        ensures
            final(self).inv(),
            final(self).contents() == old(self).contents().insert(
                id,
                old(self).contents()[id].remove(entry_type),
            ),
            match removed {
                Some(c) => old(self).contents()[id].contains_key(entry_type)
                    && c == old(self).contents()[id][entry_type],
                None => !old(self).contents()[id].contains_key(entry_type),
            },
    ;
}

/// The position of a live entity, read through any backend.
pub fn position_of<T: EntityTable>(entities: &T, id: EntityId) -> (r: Option<Vector2>)
    requires
        entities.inv(),
    ensures
        r == if entities.contents().contains_key(id) {
            spec_position(entities.contents()[id])
        } else {
            None::<Vector2>
        },
{
    match entities.get_component(id, ComponentType::Position) {
        Some(c) => c.as_position(),
        None => None,
    }
}

/// Installing a table under a fresh id and at once evicting that id returns
/// the very table that was inserted and restores the store's prior contents.
/// This is the round-trip law for `add` followed by `remove`, stated over the
/// abstract views their contracts are written in.
pub proof fn lemma_add_remove_round_trip(
    contents: Map<EntityId, Map<ComponentType, Component>>,
    id: EntityId,
    table: Map<ComponentType, Component>,
)
    requires
        !contents.contains_key(id),
    ensures
        contents.insert(id, table)[id] == table,
        contents.insert(id, table).remove(id) == contents,
{
    assert(contents.insert(id, table).remove(id) =~= contents);
}

} // verus!
