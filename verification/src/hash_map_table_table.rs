//! The nested-map backend: one [`Table`] per entity, stored directly in a
//! hash map keyed by entity id. Best when per-entity access dominates; it
//! offers no reverse per-discriminant query.

use vstd::prelude::*;
use std::collections::HashMap;
use crate::entity::{Component, ComponentType, EntityId};
use crate::table::Table;
use crate::table_table::EntityTable;

verus! {

broadcast use vstd::std_specs::hash::group_hash_axioms;

/// An entity store holding each entity's table whole.
pub struct HashMapTableTable {
    tables: HashMap<EntityId, Table>,
}

impl HashMapTableTable {
    /// An empty store.
    pub fn new() -> (r: Self)
        ensures
            r.inv(),
            r.contents() == Map::<EntityId, Map<ComponentType, Component>>::empty(),
    {
        let r = HashMapTableTable { tables: HashMap::new() };
        proof {
            assert(r.contents() =~= Map::<EntityId, Map<ComponentType, Component>>::empty());
        }
        r
    }
}

impl EntityTable for HashMapTableTable {
    closed spec fn contents(&self) -> Map<EntityId, Map<ComponentType, Component>> {
        self.tables@.map_values(|t: Table| t@)
    }

    closed spec fn inv(&self) -> bool {
        forall|id: EntityId|
            self.tables@.dom().contains(id) ==> (#[trigger] self.tables@[id]).wf()
    }

    fn add(&mut self, id: EntityId, table: Table) -> (displaced: Option<Table>) {
        let ghost pre = self.tables@;
        let displaced = self.tables.insert(id, table);
        proof {
            assert(self.contents() =~= old(self).contents().insert(id, table@));
        }
        displaced
    }

    fn remove(&mut self, id: EntityId) -> (removed: Option<Table>) {
        let removed = self.tables.remove(&id);
        proof {
            assert(self.contents() =~= old(self).contents().remove(id));
        }
        removed
    }

    fn contains_id(&self, id: EntityId) -> (r: bool) {
        self.tables.contains_key(&id)
    }

    fn get_component(&self, id: EntityId, entry_type: ComponentType) -> (r: Option<&Component>) {
        match self.tables.get(&id) {
            Some(table) => table.get(entry_type),
            None => None,
        }
    }

    fn components_of(&self, id: EntityId) -> (r: Vec<(ComponentType, Component)>) {
        match self.tables.get(&id) {
            Some(table) => table.pairs(),
            None => {
                proof {
                    assert(false);
                }
                Vec::new()
            }
        }
    }

    fn add_component(&mut self, id: EntityId, entry: Component) -> (displaced: Option<Component>) {
        match self.tables.remove(&id) {
            Some(mut table) => {
                let displaced = table.add(entry);
                self.tables.insert(id, table);
                proof {
                    assert(self.contents() =~= old(self).contents().insert(
                        id,
                        old(self).contents()[id].insert(entry.to_type(), entry),
                    ));
                }
                displaced
            }
            None => {
                proof {
                    assert(false);
                }
                None
            }
        }
    }

    fn remove_component(&mut self, id: EntityId, entry_type: ComponentType) -> (removed: Option<
        Component,
    >) {
        match self.tables.remove(&id) {
            Some(mut table) => {
                let removed = table.remove(entry_type);
                self.tables.insert(id, table);
                proof {
                    assert(self.contents() =~= old(self).contents().insert(
                        id,
                        old(self).contents()[id].remove(entry_type),
                    ));
                }
                removed
            }
            None => {
                proof {
                    assert(false);
                }
                None
            }
        }
    }
}

} // verus!
