//! The diff of one simulation step.
//!
//! An [`UpdateSummary`] records what one step changes: entities created with
//! their full initial tables, entity ids destroyed, components added or
//! overwritten per entity, and component discriminants removed per entity,
//! plus step [`Metadata`]. A rule/action layer builds one, and it is then
//! applied to the canonical store by [`commit`] and replayed against the
//! spatial index — both driven by the same summary, so the two stay
//! consistent by construction.

use vstd::prelude::*;
use crate::assoc::{assoc_map, distinct_keys, lemma_assoc_absent, lemma_assoc_index,
    lemma_assoc_push, lemma_assoc_remove, lemma_nodup_push, lemma_push_contains};
use crate::entity::{Component, ComponentType, EntityId};
use crate::metadata::{Metadata, Metadatum};
use crate::table::Table;
use crate::table_table::EntityTable;

verus! {

/// The components one step adds to or overwrites on one entity: a table of
/// their values, keyed by discriminant.
pub type AddedComponents = Table;

/// A single turn's record of changes, consumed once by the store commit and
/// once by the spatial-index sync, then discarded.
pub struct UpdateSummary {
    added_entities: Vec<(EntityId, Table)>,
    removed_entities: Vec<EntityId>,
    added_components: Vec<(EntityId, AddedComponents)>,
    removed_components: Vec<(EntityId, Vec<ComponentType>)>,
    metadata: Metadata,
}

impl UpdateSummary {
    /// Newly created entities with their initial tables, in recording order.
    pub closed spec fn added_seq(&self) -> Seq<(EntityId, Map<ComponentType, Component>)> {
        self.added_entities@.map_values(|p: (EntityId, Table)| (p.0, p.1@))
    }

    /// Destroyed entity ids, in recording order.
    pub closed spec fn removed_seq(&self) -> Seq<EntityId> {
        self.removed_entities@
    }

    /// Per-entity added/overwritten components, in recording order.
    pub closed spec fn comp_added_seq(&self) -> Seq<(EntityId, Map<ComponentType, Component>)> {
        self.added_components@.map_values(|p: (EntityId, Table)| (p.0, p.1@))
    }

    /// Per-entity removed component discriminants, in recording order.
    pub closed spec fn comp_removed_seq(&self) -> Seq<(EntityId, Seq<ComponentType>)> {
        self.removed_components@.map_values(|p: (EntityId, Vec<ComponentType>)| (p.0, p.1@))
    }

    /// Newly created entities as a map.
    pub open spec fn added(&self) -> Map<EntityId, Map<ComponentType, Component>> {
        assoc_map(self.added_seq())
    }

    /// Destroyed entity ids as a set.
    pub open spec fn removed(&self) -> Set<EntityId> {
        self.removed_seq().to_set()
    }

    /// Added/overwritten components as a map.
    pub open spec fn comp_added(&self) -> Map<EntityId, Map<ComponentType, Component>> {
        assoc_map(self.comp_added_seq())
    }

    /// Removed discriminants as a map to sequences.
    pub open spec fn comp_removed(&self) -> Map<EntityId, Seq<ComponentType>> {
        assoc_map(self.comp_removed_seq())
    }

    /// The step metadata.
    pub closed spec fn metadata_view(&self) -> Map<crate::metadata::MetadatumType, Metadatum> {
        self.metadata@
    }

    /// Well-formedness: one record per entity in each category, well-formed
    /// tables, duplicate-free buckets.
    pub closed spec fn wf(&self) -> bool {
        &&& distinct_keys(self.added_entities@)
        &&& forall|i: int|
            0 <= i < self.added_entities@.len() ==> (#[trigger] self.added_entities@[i]).1.wf()
        &&& self.removed_entities@.no_duplicates()
        &&& distinct_keys(self.added_components@)
        &&& forall|i: int|
            0 <= i < self.added_components@.len() ==> (#[trigger] self.added_components@[i]).1.wf()
        &&& distinct_keys(self.removed_components@)
        &&& forall|i: int|
            0 <= i < self.removed_components@.len()
                ==> (#[trigger] self.removed_components@[i]).1@.no_duplicates()
        &&& self.metadata.wf()
    }

    /// A diff that records no change in any category.
    pub open spec fn is_empty(&self) -> bool {
        &&& self.added_seq().len() == 0
        &&& self.removed_seq().len() == 0
        &&& self.comp_added_seq().len() == 0
        &&& self.comp_removed_seq().len() == 0
    }

    /// An empty diff.
    pub fn new() -> (r: UpdateSummary)
        ensures
            r.wf(),
            r.is_empty(),
            r.metadata_view() == Map::<crate::metadata::MetadatumType, Metadatum>::empty(),
    {
        UpdateSummary {
            added_entities: Vec::new(),
            removed_entities: Vec::new(),
            added_components: Vec::new(),
            removed_components: Vec::new(),
            metadata: Metadata::new(),
        }
    }

    /// Record a newly created entity with its initial table, replacing any
    /// earlier record for the same id.
    pub fn add_entity(&mut self, id: EntityId, table: Table)
        requires
            old(self).wf(),
            table.wf(),
            !old(self).added().contains_key(id),
        ensures
            final(self).wf(),
            final(self).added_seq() == old(self).added_seq().push((id, table@)),
            final(self).added() == old(self).added().insert(id, table@),
            final(self).removed_seq() == old(self).removed_seq(),
            final(self).comp_added_seq() == old(self).comp_added_seq(),
            final(self).comp_removed_seq() == old(self).comp_removed_seq(),
            final(self).metadata_view() == old(self).metadata_view(),
    {
        proof {
            assert forall|j: int| 0 <= j < self.added_entities@.len() implies (
            #[trigger] self.added_entities@[j]).0 != id by {
                if self.added_entities@[j].0 == id {
                    assert(self.added_seq()[j].0 == id);
                    lemma_assoc_index_weak(self.added_seq(), j);
                }
            }
            lemma_assoc_push(self.added_seq(), id, table@);
        }
        self.added_entities.push((id, table));
        proof {
            assert(self.added_entities@.drop_last() == old(self).added_entities@);
            assert(self.added_seq() =~= old(self).added_seq().push((id, table@)));
        }
    }

    /// Record the destruction of an entity. Recording the same id twice is
    /// the same as recording it once.
    pub fn remove_entity(&mut self, id: EntityId)
        requires
            old(self).wf(),
        ensures
            final(self).wf(),
            final(self).removed() == old(self).removed().insert(id),
            final(self).added_seq() == old(self).added_seq(),
            final(self).comp_added_seq() == old(self).comp_added_seq(),
            final(self).comp_removed_seq() == old(self).comp_removed_seq(),
            final(self).metadata_view() == old(self).metadata_view(),
    {
        match find_id_index(&self.removed_entities, id) {
            Some(_) => {
                proof {
                    assert(self.removed().insert(id) =~= self.removed());
                }
            }
            None => {
                proof {
                    lemma_nodup_push(self.removed_entities@, id);
                }
                self.removed_entities.push(id);
                proof {
                    assert(self.removed() =~= old(self).removed().insert(id));
                }
            }
        }
    }

    /// Record that one component is added to or overwritten on an entity.
    pub fn add_component(&mut self, id: EntityId, entry: Component)
        requires
            old(self).wf(),
        ensures
            final(self).wf(),
            final(self).comp_added() == old(self).comp_added().insert(
                id,
                if old(self).comp_added().contains_key(id) {
                    old(self).comp_added()[id].insert(entry.to_type(), entry)
                } else {
                    Map::<ComponentType, Component>::empty().insert(entry.to_type(), entry)
                },
            ),
            final(self).added_seq() == old(self).added_seq(),
            final(self).removed_seq() == old(self).removed_seq(),
            final(self).comp_removed_seq() == old(self).comp_removed_seq(),
            final(self).metadata_view() == old(self).metadata_view(),
    {
        proof {
            let ms = self.comp_added_seq();
            assert forall|a: int, b: int| 0 <= a < b < ms.len() implies (#[trigger] ms[a]).0 != (
            #[trigger] ms[b]).0 by {
                assert(ms[a].0 == self.added_components@[a].0);
                assert(ms[b].0 == self.added_components@[b].0);
            }
        }
        match find_table_index(&self.added_components, id) {
            Some(i) => {
                proof {
                    lemma_assoc_index(self.comp_added_seq(), i as int);
                    lemma_assoc_remove(self.comp_added_seq(), i as int);
                    assert(self.added_components@.remove(i as int).map_values(
                        |p: (EntityId, Table)| (p.0, p.1@),
                    ) =~= self.comp_added_seq().remove(i as int));
                    assert((#[trigger] self.added_components@[i as int]).1.wf());
                }
                let (_, mut bucket) = self.added_components.remove(i);
                let ghost mid_seq = self.comp_added_seq();
                let ghost b0 = bucket@;
                bucket.add(entry);
                proof {
                    assert(b0 == old(self).comp_added()[id]);
                    lemma_assoc_push(mid_seq, id, bucket@);
                }
                self.added_components.push((id, bucket));
                proof {
                    assert(self.comp_added_seq() =~= mid_seq.push((id, bucket@)));
                    assert(self.comp_added() =~= old(self).comp_added().insert(id, bucket@));
                    let fs = self.comp_added_seq();
                    assert forall|a: int, b: int|
                        0 <= a < b < self.added_components@.len() implies (
                    #[trigger] self.added_components@[a]).0 != (
                    #[trigger] self.added_components@[b]).0 by {
                        assert(fs[a].0 == self.added_components@[a].0);
                        assert(fs[b].0 == self.added_components@[b].0);
                    }
                }
            }
            None => {
                proof {
                    lemma_assoc_absent(self.comp_added_seq(), id);
                }
                let mut bucket = Table::new();
                bucket.add(entry);
                let ghost pre_seq = self.comp_added_seq();
                proof {
                    lemma_assoc_push(pre_seq, id, bucket@);
                }
                self.added_components.push((id, bucket));
                proof {
                    assert(self.comp_added_seq() =~= pre_seq.push((id, bucket@)));
                    assert(self.comp_added() =~= old(self).comp_added().insert(id, bucket@));
                    assert(bucket@ =~= Map::<ComponentType, Component>::empty().insert(
                        entry.to_type(),
                        entry,
                    ));
                    let fs = self.comp_added_seq();
                    assert forall|a: int, b: int|
                        0 <= a < b < self.added_components@.len() implies (
                    #[trigger] self.added_components@[a]).0 != (
                    #[trigger] self.added_components@[b]).0 by {
                        assert(fs[a].0 == self.added_components@[a].0);
                        assert(fs[b].0 == self.added_components@[b].0);
                    }
                }
            }
        }
    }

    /// Record that one component discriminant is removed from an entity.
    pub fn remove_component(&mut self, id: EntityId, entry_type: ComponentType)
        requires
            old(self).wf(),
        ensures
            final(self).wf(),
            final(self).comp_removed().contains_key(id),
            forall|t: ComponentType|
                final(self).comp_removed()[id].contains(t) <==> (old(
                    self,
                ).comp_removed().contains_key(id) && old(self).comp_removed()[id].contains(t)) || t
                    == entry_type,
            forall|id2: EntityId|
                #[trigger] final(self).comp_removed().contains_key(id2) <==> old(
                    self,
                ).comp_removed().contains_key(id2) || id2 == id,
            forall|id2: EntityId|
                id2 != id && old(self).comp_removed().contains_key(id2)
                    ==> #[trigger] final(self).comp_removed()[id2] == old(self).comp_removed()[id2],
            final(self).added_seq() == old(self).added_seq(),
            final(self).removed_seq() == old(self).removed_seq(),
            final(self).comp_added_seq() == old(self).comp_added_seq(),
            final(self).metadata_view() == old(self).metadata_view(),
    {
        proof {
            let ms = self.comp_removed_seq();
            assert forall|a: int, b: int| 0 <= a < b < ms.len() implies (#[trigger] ms[a]).0 != (
            #[trigger] ms[b]).0 by {
                assert(ms[a].0 == self.removed_components@[a].0);
                assert(ms[b].0 == self.removed_components@[b].0);
            }
        }
        match find_bucket_index(&self.removed_components, id) {
            Some(i) => {
                proof {
                    lemma_assoc_index(self.comp_removed_seq(), i as int);
                    lemma_assoc_remove(self.comp_removed_seq(), i as int);
                    assert(self.removed_components@.remove(i as int).map_values(
                        |p: (EntityId, Vec<ComponentType>)| (p.0, p.1@),
                    ) =~= self.comp_removed_seq().remove(i as int));
                    assert((#[trigger] self.removed_components@[i as int]).1@.no_duplicates());
                }
                let (_, mut bucket) = self.removed_components.remove(i);
                let ghost mid_seq = self.comp_removed_seq();
                let ghost b0 = bucket@;
                proof {
                    assert(b0 == old(self).comp_removed()[id]);
                }
                match find_type_index(&bucket, entry_type) {
                    Some(_) => {}
                    None => {
                        proof {
                            lemma_nodup_push(bucket@, entry_type);
                        }
                        bucket.push(entry_type);
                    }
                }
                proof {
                    lemma_assoc_push(mid_seq, id, bucket@);
                    lemma_push_contains(b0, entry_type);
                }
                self.removed_components.push((id, bucket));
                proof {
                    assert(self.comp_removed_seq() =~= mid_seq.push((id, bucket@)));
                    assert(self.comp_removed() =~= old(self).comp_removed().insert(id, bucket@));
                    let fs = self.comp_removed_seq();
                    assert forall|a: int, b: int|
                        0 <= a < b < self.removed_components@.len() implies (
                    #[trigger] self.removed_components@[a]).0 != (
                    #[trigger] self.removed_components@[b]).0 by {
                        assert(fs[a].0 == self.removed_components@[a].0);
                        assert(fs[b].0 == self.removed_components@[b].0);
                    }
                }
            }
            None => {
                proof {
                    lemma_assoc_absent(self.comp_removed_seq(), id);
                }
                let mut bucket: Vec<ComponentType> = Vec::new();
                bucket.push(entry_type);
                let ghost pre_seq = self.comp_removed_seq();
                let ghost b = bucket@;
                proof {
                    lemma_assoc_push(pre_seq, id, bucket@);
                    assert(b.len() == 1 && b[0] == entry_type);
                    assert forall|t: ComponentType| b.contains(t) implies t == entry_type by {
                        let a = choose|a: int| 0 <= a < b.len() && b[a] == t;
                    }
                    assert(b.contains(entry_type));
                    assert(b.no_duplicates());
                }
                self.removed_components.push((id, bucket));
                proof {
                    assert(self.comp_removed_seq() =~= pre_seq.push((id, b)));
                    assert(self.comp_removed() =~= old(self).comp_removed().insert(id, b));
                    let fs = self.comp_removed_seq();
                    assert forall|a: int, b2: int|
                        0 <= a < b2 < self.removed_components@.len() implies (
                    #[trigger] self.removed_components@[a]).0 != (
                    #[trigger] self.removed_components@[b2]).0 by {
                        assert(fs[a].0 == self.removed_components@[a].0);
                        assert(fs[b2].0 == self.removed_components@[b2].0);
                    }
                }
            }
        }
    }

    /// Attach a metadatum to the step, displacing any of the same kind.
    pub fn set_metadatum(&mut self, metadatum: Metadatum) -> (displaced: Option<Metadatum>)
        requires
            old(self).wf(),
        ensures
            final(self).wf(),
            final(self).metadata_view() == old(self).metadata_view().insert(
                metadatum.to_type(),
                metadatum,
            ),
            final(self).added_seq() == old(self).added_seq(),
            final(self).removed_seq() == old(self).removed_seq(),
            final(self).comp_added_seq() == old(self).comp_added_seq(),
            final(self).comp_removed_seq() == old(self).comp_removed_seq(),
            match displaced {
                Some(m) => old(self).metadata_view().contains_key(metadatum.to_type()) && m == old(
                    self,
                ).metadata_view()[metadatum.to_type()],
                None => !old(self).metadata_view().contains_key(metadatum.to_type()),
            },
    {
        self.metadata.add(metadatum)
    }

    /// The step metadata.
    pub fn metadata(&self) -> (r: &Metadata)
        requires
            self.wf(),
        ensures
            r.wf(),
            r@ == self.metadata_view(),
    {
        &self.metadata
    }

    /// How many entities the step creates.
    pub fn added_count(&self) -> (r: usize)
        ensures
            r == self.added_seq().len(),
    {
        self.added_entities.len()
    }

    /// The i-th created entity and its initial table.
    pub fn added_at(&self, i: usize) -> (r: (EntityId, &Table))
        requires
            self.wf(),
            i < self.added_seq().len(),
        ensures
            r.0 == self.added_seq()[i as int].0,
            r.1@ == self.added_seq()[i as int].1,
            r.1.wf(),
    {
        let p = &self.added_entities[i];
        (p.0, &p.1)
    }

    /// How many entities the step destroys.
    pub fn removed_count(&self) -> (r: usize)
        ensures
            r == self.removed_seq().len(),
    {
        self.removed_entities.len()
    }

    /// The i-th destroyed entity id.
    pub fn removed_at(&self, i: usize) -> (r: EntityId)
        requires
            i < self.removed_seq().len(),
        ensures
            r == self.removed_seq()[i as int],
    {
        self.removed_entities[i]
    }

    /// How many entities have components added or overwritten.
    pub fn comp_added_count(&self) -> (r: usize)
        ensures
            r == self.comp_added_seq().len(),
    {
        self.added_components.len()
    }

    /// The i-th component-addition record.
    pub fn comp_added_at(&self, i: usize) -> (r: (EntityId, &AddedComponents))
        requires
            self.wf(),
            i < self.comp_added_seq().len(),
        ensures
            r.0 == self.comp_added_seq()[i as int].0,
            r.1@ == self.comp_added_seq()[i as int].1,
            r.1.wf(),
    {
        let p = &self.added_components[i];
        (p.0, &p.1)
    }

    /// How many entities have component discriminants removed.
    pub fn comp_removed_count(&self) -> (r: usize)
        ensures
            r == self.comp_removed_seq().len(),
    {
        self.removed_components.len()
    }

    /// The i-th component-removal record.
    pub fn comp_removed_at(&self, i: usize) -> (r: (EntityId, &Vec<ComponentType>))
        requires
            self.wf(),
            i < self.comp_removed_seq().len(),
        ensures
            r.0 == self.comp_removed_seq()[i as int].0,
            r.1@ == self.comp_removed_seq()[i as int].1,
            r.1@.no_duplicates(),
    {
        let p = &self.removed_components[i];
        (p.0, &p.1)
    }
}

/// Index of an id in a plain id list, if present.
fn find_id_index(v: &Vec<EntityId>, id: EntityId) -> (r: Option<usize>)
    ensures
        match r {
            Some(i) => i < v@.len() && v@[i as int] == id,
            None => !v@.contains(id),
        },
{
    let mut i: usize = 0;
    while i < v.len()
        invariant
            i <= v@.len(),
            forall|j: int| 0 <= j < i ==> v@[j] != id,
        decreases v@.len() - i,
    {
        if v[i] == id {
            return Some(i);
        }
        i = i + 1;
    }
    None
}

/// Index of a discriminant in a discriminant list, if present.
fn find_type_index(v: &Vec<ComponentType>, t: ComponentType) -> (r: Option<usize>)
    ensures
        match r {
            Some(i) => i < v@.len() && v@[i as int] == t,
            None => !v@.contains(t),
        },
{
    let mut i: usize = 0;
    while i < v.len()
        invariant
            i <= v@.len(),
            forall|j: int| 0 <= j < i ==> v@[j] != t,
        decreases v@.len() - i,
    {
        if v[i] == t {
            return Some(i);
        }
        i = i + 1;
    }
    None
}

/// Index of an id's record in a (id, table) list, if present.
fn find_table_index(v: &Vec<(EntityId, Table)>, id: EntityId) -> (r: Option<usize>)
    ensures
        match r {
            Some(i) => i < v@.len() && v@[i as int].0 == id,
            None => forall|j: int| 0 <= j < v@.len() ==> (#[trigger] v@[j]).0 != id,
        },
{
    let mut i: usize = 0;
    while i < v.len()
        invariant
            i <= v@.len(),
            forall|j: int| 0 <= j < i ==> (#[trigger] v@[j]).0 != id,
        decreases v@.len() - i,
    {
        if v[i].0 == id {
            return Some(i);
        }
        i = i + 1;
    }
    None
}

/// Index of an id's record in a (id, discriminant list) list, if present.
fn find_bucket_index(v: &Vec<(EntityId, Vec<ComponentType>)>, id: EntityId) -> (r: Option<usize>)
    ensures
        match r {
            Some(i) => i < v@.len() && v@[i as int].0 == id,
            None => forall|j: int| 0 <= j < v@.len() ==> (#[trigger] v@[j]).0 != id,
        },
{
    let mut i: usize = 0;
    while i < v.len()
        invariant
            i <= v@.len(),
            forall|j: int| 0 <= j < i ==> (#[trigger] v@[j]).0 != id,
        decreases v@.len() - i,
    {
        if v[i].0 == id {
            return Some(i);
        }
        i = i + 1;
    }
    None
}

/// A key of the map stands at the index the assoc lemma points to — weak
/// form usable without distinct keys, for reading one record.
proof fn lemma_assoc_index_weak<K, V>(s: Seq<(K, V)>, i: int)
    requires
        0 <= i < s.len(),
    ensures
        assoc_map(s).dom().contains(s[i].0),
    decreases s.len(),
{
    if i < s.len() - 1 {
        lemma_assoc_index_weak(s.drop_last(), i);
        assert(s.drop_last()[i] == s[i]);
    }
}

/// The store after installing each newly created entity, in order.
pub open spec fn spec_apply_added(
    c: Map<EntityId, Map<ComponentType, Component>>,
    s: Seq<(EntityId, Map<ComponentType, Component>)>,
) -> Map<EntityId, Map<ComponentType, Component>>
    decreases s.len(),
{
    if s.len() == 0 {
        c
    } else {
        spec_apply_added(c, s.drop_last()).insert(s.last().0, s.last().1)
    }
}

/// The store after evicting each destroyed entity, in order.
pub open spec fn spec_remove_ids(
    c: Map<EntityId, Map<ComponentType, Component>>,
    s: Seq<EntityId>,
) -> Map<EntityId, Map<ComponentType, Component>>
    decreases s.len(),
{
    if s.len() == 0 {
        c
    } else {
        spec_remove_ids(c, s.drop_last()).remove(s.last())
    }
}

/// The store after merging each entity's added/overwritten components.
pub open spec fn spec_apply_comp_added(
    c: Map<EntityId, Map<ComponentType, Component>>,
    s: Seq<(EntityId, Map<ComponentType, Component>)>,
) -> Map<EntityId, Map<ComponentType, Component>>
    decreases s.len(),
{
    if s.len() == 0 {
        c
    } else {
        let r = spec_apply_comp_added(c, s.drop_last());
        r.insert(s.last().0, r[s.last().0].union_prefer_right(s.last().1))
    }
}

/// The store after striking each entity's removed discriminants.
pub open spec fn spec_apply_comp_removed(
    c: Map<EntityId, Map<ComponentType, Component>>,
    s: Seq<(EntityId, Seq<ComponentType>)>,
) -> Map<EntityId, Map<ComponentType, Component>>
    decreases s.len(),
{
    if s.len() == 0 {
        c
    } else {
        let r = spec_apply_comp_removed(c, s.drop_last());
        r.insert(s.last().0, r[s.last().0].remove_keys(s.last().1.to_set()))
    }
}

/// What committing a diff does to a store's contents: additions, then
/// removals, then per-entity component merges, then per-entity discriminant
/// removals.
pub open spec fn spec_commit(
    c: Map<EntityId, Map<ComponentType, Component>>,
    diff: UpdateSummary,
) -> Map<EntityId, Map<ComponentType, Component>> {
    spec_apply_comp_removed(
        spec_apply_comp_added(
            spec_remove_ids(spec_apply_added(c, diff.added_seq()), diff.removed_seq()),
            diff.comp_added_seq(),
        ),
        diff.comp_removed_seq(),
    )
}

impl UpdateSummary {
    /// Every entity whose components the diff changes is live once the
    /// diff's additions and removals have been applied. Committing a diff
    /// that touches a stale id is a programming error.
    pub open spec fn commit_ok(&self, c: Map<EntityId, Map<ComponentType, Component>>) -> bool {
        let c2 = spec_remove_ids(spec_apply_added(c, self.added_seq()), self.removed_seq());
        &&& forall|j: int|
            0 <= j < self.comp_added_seq().len() ==> c2.contains_key(
                (#[trigger] self.comp_added_seq()[j]).0,
            )
        &&& forall|j: int|
            0 <= j < self.comp_removed_seq().len() ==> c2.contains_key(
                (#[trigger] self.comp_removed_seq()[j]).0,
            )
    }
}

/// Merging components never drops an entity.
proof fn lemma_comp_added_keeps_dom(
    c: Map<EntityId, Map<ComponentType, Component>>,
    s: Seq<(EntityId, Map<ComponentType, Component>)>,
)
    ensures
        forall|id: EntityId|
            c.contains_key(id) ==> #[trigger] spec_apply_comp_added(c, s).contains_key(id),
    decreases s.len(),
{
    if s.len() > 0 {
        lemma_comp_added_keeps_dom(c, s.drop_last());
        assert forall|id: EntityId| c.contains_key(id) implies #[trigger] spec_apply_comp_added(
            c,
            s,
        ).contains_key(id) by {
            assert(spec_apply_comp_added(c, s.drop_last()).contains_key(id));
        }
    }
}

/// Striking discriminants never drops an entity.
proof fn lemma_comp_removed_keeps_dom(
    c: Map<EntityId, Map<ComponentType, Component>>,
    s: Seq<(EntityId, Seq<ComponentType>)>,
)
    ensures
        forall|id: EntityId|
            c.contains_key(id) ==> #[trigger] spec_apply_comp_removed(c, s).contains_key(id),
    decreases s.len(),
{
    if s.len() > 0 {
        lemma_comp_removed_keeps_dom(c, s.drop_last());
        assert forall|id: EntityId| c.contains_key(id) implies #[trigger] spec_apply_comp_removed(
            c,
            s,
        ).contains_key(id) by {
            assert(spec_apply_comp_removed(c, s.drop_last()).contains_key(id));
        }
    }
}

/// Apply a diff to the canonical store: install the new entities, evict the
/// destroyed ones, then merge component additions and strike component
/// removals entity by entity, in that order.
pub fn commit<T: EntityTable>(entities: &mut T, diff: &UpdateSummary)
    requires
        old(entities).inv(),
        diff.wf(),
        diff.commit_ok(old(entities).contents()),
    ensures
        final(entities).inv(),
        final(entities).contents() == spec_commit(old(entities).contents(), *diff),
{
    let ghost c0 = entities.contents();
    let ghost s1 = diff.added_seq();
    let mut i: usize = 0;
    let n1 = diff.added_count();
    while i < n1
        invariant
            entities.inv(),
            i <= n1,
            n1 == s1.len(),
            s1 == diff.added_seq(),
            diff.wf(),
            c0 == old(entities).contents(),
            entities.contents() == spec_apply_added(c0, s1.subrange(0, i as int)),
        decreases n1 - i,
    {
        let (id, table) = diff.added_at(i);
        let table = table.duplicate();
        entities.add(id, table);
        proof {
            assert(s1.subrange(0, i + 1 as int).drop_last() =~= s1.subrange(0, i as int));
            assert(s1.subrange(0, i + 1 as int).last() == s1[i as int]);
        }
        i = i + 1;
    }
    proof {
        assert(s1.subrange(0, n1 as int) =~= s1);
    }
    let ghost c1 = spec_apply_added(c0, s1);
    let ghost s2 = diff.removed_seq();
    let mut i: usize = 0;
    let n2 = diff.removed_count();
    while i < n2
        invariant
            entities.inv(),
            i <= n2,
            n2 == s2.len(),
            s2 == diff.removed_seq(),
            diff.wf(),
            entities.contents() == spec_remove_ids(c1, s2.subrange(0, i as int)),
        decreases n2 - i,
    {
        let id = diff.removed_at(i);
        entities.remove(id);
        proof {
            assert(s2.subrange(0, i + 1 as int).drop_last() =~= s2.subrange(0, i as int));
            assert(s2.subrange(0, i + 1 as int).last() == s2[i as int]);
        }
        i = i + 1;
    }
    proof {
        assert(s2.subrange(0, n2 as int) =~= s2);
    }
    let ghost c2 = spec_remove_ids(c1, s2);
    let ghost s3 = diff.comp_added_seq();
    let mut i: usize = 0;
    let n3 = diff.comp_added_count();
    while i < n3
        invariant
            entities.inv(),
            i <= n3,
            n3 == s3.len(),
            s3 == diff.comp_added_seq(),
            diff.wf(),
            diff.commit_ok(c0),
            c0 == old(entities).contents(),
            c2 == spec_remove_ids(spec_apply_added(c0, diff.added_seq()), diff.removed_seq()),
            entities.contents() == spec_apply_comp_added(c2, s3.subrange(0, i as int)),
        decreases n3 - i,
    {
        let (id, changes) = diff.comp_added_at(i);
        proof {
            assert(c2.contains_key(id));
            lemma_comp_added_keeps_dom(c2, s3.subrange(0, i as int));
            assert(entities.contents().contains_key(id));
        }
        let ghost pre = entities.contents();
        let ghost tblpre = pre[id];
        let pairs = changes.pairs();
        let ghost ps = pairs@;
        proof {
            assert(ps.subrange(0, 0).len() == 0);
            assert(tblpre.union_prefer_right(assoc_map(ps.subrange(0, 0))) =~= tblpre);
            assert(pre.insert(id, tblpre) =~= pre);
        }
        let mut k: usize = 0;
        while k < pairs.len()
            invariant
                entities.inv(),
                k <= ps.len(),
                pairs@ == ps,
                distinct_keys(ps),
                i < s3.len(),
                assoc_map(ps) == s3[i as int].1,
                forall|a: int| 0 <= a < ps.len() ==> (#[trigger] ps[a]).0 == ps[a].1.to_type(),
                pre.contains_key(id),
                entities.contents().contains_key(id),
                tblpre == pre[id],
                entities.contents() == pre.insert(
                    id,
                    tblpre.union_prefer_right(assoc_map(ps.subrange(0, k as int))),
                ),
            decreases ps.len() - k,
        {
            let entry = pairs[k].1;
            let ghost cur = entities.contents();
            entities.add_component(id, entry);
            proof {
                assert(ps.subrange(0, k + 1 as int) =~= ps.subrange(0, k as int).push(ps[k as int]));
                assert(forall|a: int|
                    0 <= a < k ==> (#[trigger] ps.subrange(0, k as int)[a]).0 != ps[k as int].0);
                lemma_assoc_push(ps.subrange(0, k as int), ps[k as int].0, ps[k as int].1);
                assert(entry.to_type() == ps[k as int].0);
                assert(cur[id].insert(entry.to_type(), entry) =~= tblpre.union_prefer_right(
                    assoc_map(ps.subrange(0, k + 1 as int)),
                ));
                assert(entities.contents() =~= pre.insert(
                    id,
                    tblpre.union_prefer_right(assoc_map(ps.subrange(0, k + 1 as int))),
                ));
            }
            k = k + 1;
        }
        proof {
            assert(ps.subrange(0, ps.len() as int) =~= ps);
            assert(s3.subrange(0, i + 1 as int).drop_last() =~= s3.subrange(0, i as int));
            assert(s3.subrange(0, i + 1 as int).last() == s3[i as int]);
            assert(entities.contents() =~= spec_apply_comp_added(c2, s3.subrange(0, i + 1 as int)));
        }
        i = i + 1;
    }
    proof {
        assert(s3.subrange(0, n3 as int) =~= s3);
    }
    let ghost c3 = spec_apply_comp_added(c2, s3);
    let ghost s4 = diff.comp_removed_seq();
    let mut i: usize = 0;
    let n4 = diff.comp_removed_count();
    while i < n4
        invariant
            entities.inv(),
            i <= n4,
            n4 == s4.len(),
            s4 == diff.comp_removed_seq(),
            diff.wf(),
            diff.commit_ok(c0),
            c0 == old(entities).contents(),
            c2 == spec_remove_ids(spec_apply_added(c0, diff.added_seq()), diff.removed_seq()),
            c3 == spec_apply_comp_added(c2, diff.comp_added_seq()),
            entities.contents() == spec_apply_comp_removed(c3, s4.subrange(0, i as int)),
        decreases n4 - i,
    {
        let (id, bucket) = diff.comp_removed_at(i);
        proof {
            assert(c2.contains_key(id));
            lemma_comp_added_keeps_dom(c2, diff.comp_added_seq());
            lemma_comp_removed_keeps_dom(c3, s4.subrange(0, i as int));
            assert(entities.contents().contains_key(id));
        }
        let ghost pre = entities.contents();
        let ghost tblpre = pre[id];
        let ghost bs = bucket@;
        proof {
            assert(bs.subrange(0, 0).len() == 0);
            assert(tblpre.remove_keys(bs.subrange(0, 0).to_set()) =~= tblpre);
            assert(pre.insert(id, tblpre) =~= pre);
        }
        let mut k: usize = 0;
        while k < bucket.len()
            invariant
                entities.inv(),
                k <= bs.len(),
                bucket@ == bs,
                pre.contains_key(id),
                entities.contents().contains_key(id),
                tblpre == pre[id],
                entities.contents() == pre.insert(
                    id,
                    tblpre.remove_keys(bs.subrange(0, k as int).to_set()),
                ),
            decreases bs.len() - k,
        {
            let t = bucket[k];
            let ghost cur = entities.contents();
            entities.remove_component(id, t);
            proof {
                crate::assoc::lemma_subrange_push_to_set(bs, k as int);
                assert(bs.subrange(0, k + 1 as int).to_set() =~= bs.subrange(
                    0,
                    k as int,
                ).to_set().insert(t));
                assert(cur[id].remove(t) =~= tblpre.remove_keys(
                    bs.subrange(0, k + 1 as int).to_set(),
                ));
                assert(entities.contents() =~= pre.insert(
                    id,
                    tblpre.remove_keys(bs.subrange(0, k + 1 as int).to_set()),
                ));
            }
            k = k + 1;
        }
        proof {
            assert(bs.subrange(0, bs.len() as int) =~= bs);
            assert(s4.subrange(0, i + 1 as int).drop_last() =~= s4.subrange(0, i as int));
            assert(s4.subrange(0, i + 1 as int).last() == s4[i as int]);
            assert(entities.contents() =~= spec_apply_comp_removed(
                c3,
                s4.subrange(0, i + 1 as int),
            ));
        }
        i = i + 1;
    }
    proof {
        assert(s4.subrange(0, n4 as int) =~= s4);
    }
}

impl UpdateSummary {
    /// The structural facts a well-formed diff gives at the view level: one
    /// record per entity in each category, tagged tables, duplicate-free
    /// buckets.
    pub proof fn lemma_wf_views(&self)
        requires
            self.wf(),
        ensures
            distinct_keys(self.added_seq()),
            self.removed_seq().no_duplicates(),
            distinct_keys(self.comp_added_seq()),
            distinct_keys(self.comp_removed_seq()),
            forall|j: int|
                0 <= j < self.added_seq().len() ==> crate::table::tagged(
                    (#[trigger] self.added_seq()[j]).1,
                ),
            forall|j: int|
                0 <= j < self.comp_added_seq().len() ==> crate::table::tagged(
                    (#[trigger] self.comp_added_seq()[j]).1,
                ),
            forall|j: int|
                0 <= j < self.comp_removed_seq().len()
                    ==> (#[trigger] self.comp_removed_seq()[j]).1.no_duplicates(),
    {
        let sa = self.added_seq();
        assert forall|a: int, b: int| 0 <= a < b < sa.len() implies (#[trigger] sa[a]).0 != (
        #[trigger] sa[b]).0 by {
            assert(sa[a].0 == self.added_entities@[a].0);
            assert(sa[b].0 == self.added_entities@[b].0);
        }
        let sc = self.comp_added_seq();
        assert forall|a: int, b: int| 0 <= a < b < sc.len() implies (#[trigger] sc[a]).0 != (
        #[trigger] sc[b]).0 by {
            assert(sc[a].0 == self.added_components@[a].0);
            assert(sc[b].0 == self.added_components@[b].0);
        }
        let sr = self.comp_removed_seq();
        assert forall|a: int, b: int| 0 <= a < b < sr.len() implies (#[trigger] sr[a]).0 != (
        #[trigger] sr[b]).0 by {
            assert(sr[a].0 == self.removed_components@[a].0);
            assert(sr[b].0 == self.removed_components@[b].0);
        }
        assert forall|j: int| 0 <= j < sa.len() implies crate::table::tagged(
            (#[trigger] sa[j]).1,
        ) by {
            assert(sa[j].1 == self.added_entities@[j].1@);
            assert((#[trigger] self.added_entities@[j]).1.wf());
            self.added_entities@[j].1.lemma_view_tagged();
        }
        assert forall|j: int| 0 <= j < sc.len() implies crate::table::tagged(
            (#[trigger] sc[j]).1,
        ) by {
            assert(sc[j].1 == self.added_components@[j].1@);
            assert((#[trigger] self.added_components@[j]).1.wf());
            self.added_components@[j].1.lemma_view_tagged();
        }
        assert forall|j: int| 0 <= j < sr.len() implies (#[trigger] sr[j]).1.no_duplicates() by {
            assert(sr[j].1 == self.removed_components@[j].1@);
            assert((#[trigger] self.removed_components@[j]).1@.no_duplicates());
        }
    }
}

/// Committing an empty diff leaves any store's contents exactly as they
/// were: the no-op law for the canonical store.
pub proof fn lemma_commit_empty(
    c: Map<EntityId, Map<ComponentType, Component>>,
    diff: UpdateSummary,
)
    requires
        diff.is_empty(),
    ensures
        spec_commit(c, diff) == c,
{
}

} // verus!
