//! The flat backend: every (entity, discriminant) pair is flattened into one
//! shared store, beside a forward index (entity id to its discriminants) and
//! a reverse index (discriminant to the entity ids holding it). The reverse
//! index buys O(1) "every entity with component type T" queries; the dual
//! indices are kept exact mirrors of the flattened store at every step.

use vstd::prelude::*;
use crate::assoc::{assoc_map, distinct_keys, lemma_assoc_absent, lemma_assoc_dom,
    lemma_assoc_index, lemma_assoc_push, lemma_assoc_remove, lemma_nodup_push,
    lemma_nodup_remove};
use crate::entity::{Component, ComponentType, EntityId};
use crate::table::Table;
use crate::table_table::EntityTable;

verus! {

/// An entity store flattening all tables into one keyed store plus dual
/// indices.
pub struct FlatTableTable {
    tables: Vec<((EntityId, ComponentType), Component)>,
    entry_types: Vec<(EntityId, Vec<ComponentType>)>,
    entry_type_map: Vec<(ComponentType, Vec<EntityId>)>,
}

impl FlatTableTable {
    /// The flattened store as a map.
    pub closed spec fn store(&self) -> Map<(EntityId, ComponentType), Component> {
        assoc_map(self.tables@)
    }

    /// The forward index as a map from id to discriminant bucket.
    pub closed spec fn fwd(&self) -> Map<EntityId, Vec<ComponentType>> {
        assoc_map(self.entry_types@)
    }

    /// The reverse index as a map from discriminant to id bucket.
    pub closed spec fn rev(&self) -> Map<ComponentType, Vec<EntityId>> {
        assoc_map(self.entry_type_map@)
    }

    /// The forward index lists discriminant `t` for entity `id`.
    pub open spec fn fwd_has(&self, id: EntityId, t: ComponentType) -> bool {
        self.fwd().contains_key(id) && self.fwd()[id]@.contains(t)
    }

    /// The reverse index lists entity `id` under discriminant `t`.
    pub open spec fn rev_has(&self, t: ComponentType, id: EntityId) -> bool {
        self.rev().contains_key(t) && self.rev()[t]@.contains(id)
    }

    /// Shape of the three structures: distinct keys everywhere, store keys
    /// tagged with their component's own discriminant, buckets free of
    /// duplicates.
    pub closed spec fn buckets_wf(&self) -> bool {
        &&& distinct_keys(self.tables@)
        &&& distinct_keys(self.entry_types@)
        &&& distinct_keys(self.entry_type_map@)
        &&& forall|i: int|
            0 <= i < self.tables@.len() ==> (#[trigger] self.tables@[i]).0.1
                == self.tables@[i].1.to_type()
        &&& forall|i: int|
            0 <= i < self.entry_types@.len() ==> (#[trigger] self.entry_types@[i]).1@.no_duplicates()
        &&& forall|i: int|
            0 <= i < self.entry_type_map@.len()
                ==> (#[trigger] self.entry_type_map@[i]).1@.no_duplicates()
    }

    /// The dual-index property: the forward index, the reverse index and the
    /// flattened store all record exactly the same (entity, discriminant)
    /// pairs.
    pub open spec fn dual(&self) -> bool {
        &&& forall|id: EntityId, t: ComponentType|
            #[trigger] self.store().dom().contains((id, t))
                ==> self.fwd_has(id, t) && self.rev_has(t, id)
        &&& forall|id: EntityId, t: ComponentType|
            #[trigger] self.fwd_has(id, t) ==> self.store().dom().contains((id, t))
        &&& forall|id: EntityId, t: ComponentType|
            #[trigger] self.rev_has(t, id) ==> self.store().dom().contains((id, t))
    }

    /// An empty store.
    pub fn new() -> (r: Self)
        ensures
            r.inv(),
            r.contents() == Map::<EntityId, Map<ComponentType, Component>>::empty(),
    {
        let r = FlatTableTable {
            tables: Vec::new(),
            entry_types: Vec::new(),
            entry_type_map: Vec::new(),
        };
        proof {
            assert(r.contents() =~= Map::<EntityId, Map<ComponentType, Component>>::empty());
        }
        r
    }

    /// Index of the flattened slot keyed (id, t), if present.
    fn find_tbl_idx(&self, id: EntityId, t: ComponentType) -> (r: Option<usize>)
        ensures
            match r {
                Some(i) => i < self.tables@.len() && self.tables@[i as int].0 == (id, t),
                None => forall|j: int|
                    0 <= j < self.tables@.len() ==> (#[trigger] self.tables@[j]).0 != (id, t),
            },
    {
        let mut i: usize = 0;
        while i < self.tables.len()
            invariant
                i <= self.tables@.len(),
                forall|j: int| 0 <= j < i ==> (#[trigger] self.tables@[j]).0 != (id, t),
            decreases self.tables@.len() - i,
        {
            if self.tables[i].0.0 == id && self.tables[i].0.1 == t {
                return Some(i);
            }
            i = i + 1;
        }
        None
    }

    /// Index of the forward bucket of `id`, if present.
    fn find_fwd_idx(&self, id: EntityId) -> (r: Option<usize>)
        ensures
            match r {
                Some(i) => i < self.entry_types@.len() && self.entry_types@[i as int].0 == id,
                None => forall|j: int|
                    0 <= j < self.entry_types@.len() ==> (#[trigger] self.entry_types@[j]).0 != id,
            },
    {
        let mut i: usize = 0;
        while i < self.entry_types.len()
            invariant
                i <= self.entry_types@.len(),
                forall|j: int| 0 <= j < i ==> (#[trigger] self.entry_types@[j]).0 != id,
            decreases self.entry_types@.len() - i,
        {
            if self.entry_types[i].0 == id {
                return Some(i);
            }
            i = i + 1;
        }
        None
    }

    /// Index of the reverse bucket of `t`, if present.
    fn find_rev_idx(&self, t: ComponentType) -> (r: Option<usize>)
        ensures
            match r {
                Some(i) => i < self.entry_type_map@.len() && self.entry_type_map@[i as int].0 == t,
                None => forall|j: int|
                    0 <= j < self.entry_type_map@.len()
                        ==> (#[trigger] self.entry_type_map@[j]).0 != t,
            },
    {
        let mut i: usize = 0;
        while i < self.entry_type_map.len()
            invariant
                i <= self.entry_type_map@.len(),
                forall|j: int| 0 <= j < i ==> (#[trigger] self.entry_type_map@[j]).0 != t,
            decreases self.entry_type_map@.len() - i,
        {
            if self.entry_type_map[i].0 == t {
                return Some(i);
            }
            i = i + 1;
        }
        None
    }
}

/// Index of `t` in a discriminant bucket, if present.
fn find_type_in(bucket: &Vec<ComponentType>, t: ComponentType) -> (r: Option<usize>)
    ensures
        match r {
            Some(i) => i < bucket@.len() && bucket@[i as int] == t,
            None => !bucket@.contains(t),
        },
{
    let mut i: usize = 0;
    while i < bucket.len()
        invariant
            i <= bucket@.len(),
            forall|j: int| 0 <= j < i ==> bucket@[j] != t,
        decreases bucket@.len() - i,
    {
        if bucket[i] == t {
            return Some(i);
        }
        i = i + 1;
    }
    None
}

/// Index of `id` in an id bucket, if present.
fn find_id_in(bucket: &Vec<EntityId>, id: EntityId) -> (r: Option<usize>)
    ensures
        match r {
            Some(i) => i < bucket@.len() && bucket@[i as int] == id,
            None => !bucket@.contains(id),
        },
{
    let mut i: usize = 0;
    while i < bucket.len()
        invariant
            i <= bucket@.len(),
            forall|j: int| 0 <= j < i ==> bucket@[j] != id,
        decreases bucket@.len() - i,
    {
        if bucket[i] == id {
            return Some(i);
        }
        i = i + 1;
    }
    None
}

impl FlatTableTable {
    /// Record (id, t) in both indices, creating buckets as needed. Touches
    /// neither the flattened store nor any other bucket.
    fn add_type(&mut self, id: EntityId, t: ComponentType)
        requires
            old(self).buckets_wf(),
        ensures
            final(self).buckets_wf(),
            final(self).tables@ == old(self).tables@,
            forall|id2: EntityId|
                final(self).fwd().contains_key(id2) <==> old(self).fwd().contains_key(id2) || id2
                    == id,
            forall|id2: EntityId, t2: ComponentType|
                final(self).fwd_has(id2, t2) <==> old(self).fwd_has(id2, t2) || (id2 == id && t2
                    == t),
            forall|t2: ComponentType|
                final(self).rev().contains_key(t2) <==> old(self).rev().contains_key(t2) || t2 == t,
            forall|t2: ComponentType, id2: EntityId|
                final(self).rev_has(t2, id2) <==> old(self).rev_has(t2, id2) || (t2 == t && id2
                    == id),
    {
        // forward index
        match self.find_fwd_idx(id) {
            Some(i) => {
                proof {
                    lemma_assoc_index(self.entry_types@, i as int);
                    lemma_assoc_remove(self.entry_types@, i as int);
                }
                let mut pair = self.entry_types.remove(i);
                match find_type_in(&pair.1, t) {
                    Some(_) => {
                        proof {
                            lemma_assoc_push(self.entry_types@, id, pair.1);
                        }
                        self.entry_types.push(pair);
                        proof {
                            assert(self.fwd() =~= old(self).fwd().remove(id).insert(
                                id,
                                old(self).fwd()[id],
                            ));
                            assert(self.fwd() =~= old(self).fwd());
                        }
                    }
                    None => {
                        proof {
                            lemma_nodup_push(pair.1@, t);
                        }
                        pair.1.push(t);
                        proof {
                            lemma_assoc_push(self.entry_types@, id, pair.1);
                        }
                        self.entry_types.push(pair);
                        proof {
                            assert(self.fwd() =~= old(self).fwd().insert(id, pair.1));
                        }
                    }
                }
            }
            None => {
                proof {
                    lemma_assoc_absent(self.entry_types@, id);
                }
                let mut bucket: Vec<ComponentType> = Vec::new();
                bucket.push(t);
                let ghost b = bucket;
                proof {
                    lemma_assoc_push(self.entry_types@, id, bucket);
                    assert(b@.len() == 1 && b@[0] == t);
                    assert(b@.contains(t));
                    assert forall|t2: ComponentType| b@.contains(t2) implies t2 == t by {
                        let a = choose|a: int| 0 <= a < b@.len() && b@[a] == t2;
                    }
                    assert(b@.no_duplicates());
                }
                self.entry_types.push((id, bucket));
                proof {
                    assert(self.fwd() =~= old(self).fwd().insert(id, b));
                }
            }
        }
        let ghost mid = *self;
        // reverse index
        match self.find_rev_idx(t) {
            Some(i) => {
                proof {
                    lemma_assoc_index(self.entry_type_map@, i as int);
                    lemma_assoc_remove(self.entry_type_map@, i as int);
                }
                let mut pair = self.entry_type_map.remove(i);
                match find_id_in(&pair.1, id) {
                    Some(_) => {
                        proof {
                            lemma_assoc_push(self.entry_type_map@, t, pair.1);
                        }
                        self.entry_type_map.push(pair);
                        proof {
                            assert(self.rev() =~= mid.rev());
                        }
                    }
                    None => {
                        proof {
                            lemma_nodup_push(pair.1@, id);
                        }
                        pair.1.push(id);
                        proof {
                            lemma_assoc_push(self.entry_type_map@, t, pair.1);
                        }
                        self.entry_type_map.push(pair);
                        proof {
                            assert(self.rev() =~= mid.rev().insert(t, pair.1));
                        }
                    }
                }
            }
            None => {
                proof {
                    lemma_assoc_absent(self.entry_type_map@, t);
                }
                let mut bucket: Vec<EntityId> = Vec::new();
                bucket.push(id);
                let ghost b = bucket;
                proof {
                    lemma_assoc_push(self.entry_type_map@, t, bucket);
                    assert(b@.len() == 1 && b@[0] == id);
                    assert(b@.contains(id));
                    assert forall|id2: EntityId| b@.contains(id2) implies id2 == id by {
                        let a = choose|a: int| 0 <= a < b@.len() && b@[a] == id2;
                    }
                    assert(b@.no_duplicates());
                }
                self.entry_type_map.push((t, bucket));
                proof {
                    assert(self.rev() =~= mid.rev().insert(t, b));
                }
            }
        }
    }
}

impl FlatTableTable {
    /// Strike (id, t) from both indices. Buckets stay, even when emptied;
    /// nothing else is touched.
    fn remove_type(&mut self, id: EntityId, t: ComponentType)
        requires
            old(self).buckets_wf(),
        ensures
            final(self).buckets_wf(),
            final(self).tables@ == old(self).tables@,
            forall|id2: EntityId|
                final(self).fwd().contains_key(id2) <==> old(self).fwd().contains_key(id2),
            forall|id2: EntityId, t2: ComponentType|
                final(self).fwd_has(id2, t2) <==> old(self).fwd_has(id2, t2) && !(id2 == id && t2
                    == t),
            forall|t2: ComponentType|
                final(self).rev().contains_key(t2) <==> old(self).rev().contains_key(t2),
            forall|t2: ComponentType, id2: EntityId|
                final(self).rev_has(t2, id2) <==> old(self).rev_has(t2, id2) && !(t2 == t && id2
                    == id),
    {
        // forward index
        match self.find_fwd_idx(id) {
            Some(i) => {
                proof {
                    lemma_assoc_index(self.entry_types@, i as int);
                    lemma_assoc_remove(self.entry_types@, i as int);
                }
                let mut pair = self.entry_types.remove(i);
                match find_type_in(&pair.1, t) {
                    Some(j) => {
                        proof {
                            lemma_nodup_remove(pair.1@, j as int);
                        }
                        pair.1.remove(j);
                    }
                    None => {}
                }
                proof {
                    lemma_assoc_push(self.entry_types@, id, pair.1);
                }
                self.entry_types.push(pair);
                proof {
                    assert(self.fwd() =~= old(self).fwd().insert(id, pair.1));
                }
            }
            None => {
                proof {
                    lemma_assoc_absent(self.entry_types@, id);
                }
            }
        }
        let ghost mid = *self;
        // reverse index
        match self.find_rev_idx(t) {
            Some(i) => {
                proof {
                    lemma_assoc_index(self.entry_type_map@, i as int);
                    lemma_assoc_remove(self.entry_type_map@, i as int);
                }
                let mut pair = self.entry_type_map.remove(i);
                match find_id_in(&pair.1, id) {
                    Some(j) => {
                        proof {
                            lemma_nodup_remove(pair.1@, j as int);
                        }
                        pair.1.remove(j);
                    }
                    None => {}
                }
                proof {
                    lemma_assoc_push(self.entry_type_map@, t, pair.1);
                }
                self.entry_type_map.push(pair);
                proof {
                    assert(self.rev() =~= mid.rev().insert(t, pair.1));
                }
            }
            None => {
                proof {
                    lemma_assoc_absent(self.entry_type_map@, t);
                }
            }
        }
    }

    /// Give `id` a forward bucket if it has none. Membership of both indices
    /// and the store are untouched.
    fn register_id(&mut self, id: EntityId)
        requires
            old(self).buckets_wf(),
        ensures
            final(self).buckets_wf(),
            final(self).tables@ == old(self).tables@,
            final(self).entry_type_map@ == old(self).entry_type_map@,
            forall|id2: EntityId|
                final(self).fwd().contains_key(id2) <==> old(self).fwd().contains_key(id2) || id2
                    == id,
            forall|id2: EntityId, t2: ComponentType|
                final(self).fwd_has(id2, t2) <==> old(self).fwd_has(id2, t2),
    {
        match self.find_fwd_idx(id) {
            Some(i) => {
                proof {
                    lemma_assoc_index(self.entry_types@, i as int);
                }
            }
            None => {
                proof {
                    lemma_assoc_absent(self.entry_types@, id);
                }
                let bucket: Vec<ComponentType> = Vec::new();
                let ghost b = bucket;
                proof {
                    lemma_assoc_push(self.entry_types@, id, bucket);
                    assert(b@.len() == 0);
                    assert forall|t2: ComponentType| !b@.contains(t2) by {
                        if b@.contains(t2) {
                            let a = choose|a: int| 0 <= a < b@.len() && b@[a] == t2;
                        }
                    }
                }
                self.entry_types.push((id, bucket));
                proof {
                    assert(self.fwd() =~= old(self).fwd().insert(id, b));
                }
            }
        }
    }

    /// Drop the forward bucket of `id`, which must be empty. Membership of
    /// both indices and the store are untouched.
    fn unregister_id(&mut self, id: EntityId)
        requires
            old(self).buckets_wf(),
            old(self).fwd().contains_key(id),
            forall|t: ComponentType| !old(self).fwd_has(id, t),
        ensures
            final(self).buckets_wf(),
            final(self).tables@ == old(self).tables@,
            final(self).entry_type_map@ == old(self).entry_type_map@,
            forall|id2: EntityId|
                final(self).fwd().contains_key(id2) <==> old(self).fwd().contains_key(id2) && id2
                    != id,
            forall|id2: EntityId, t2: ComponentType|
                final(self).fwd_has(id2, t2) <==> old(self).fwd_has(id2, t2),
    {
        match self.find_fwd_idx(id) {
            Some(i) => {
                proof {
                    lemma_assoc_index(self.entry_types@, i as int);
                    lemma_assoc_remove(self.entry_types@, i as int);
                }
                self.entry_types.remove(i);
            }
            None => {
                proof {
                    lemma_assoc_absent(self.entry_types@, id);
                    assert(false);
                }
            }
        }
    }

    /// Every stored component is keyed by its own discriminant.
    proof fn lemma_store_tagged(&self, id: EntityId, t: ComponentType)
        requires
            self.buckets_wf(),
            self.store().dom().contains((id, t)),
        ensures
            self.store()[(id, t)].to_type() == t,
    {
        lemma_assoc_dom(self.tables@, (id, t));
        let i = choose|i: int| 0 <= i < self.tables@.len() && (#[trigger] self.tables@[i]).0 == (
        id,
        t,
        );
        lemma_assoc_index(self.tables@, i);
    }
}

impl EntityTable for FlatTableTable {
    closed spec fn contents(&self) -> Map<EntityId, Map<ComponentType, Component>> {
        Map::new(
            |id: EntityId| self.fwd().contains_key(id),
            |id: EntityId|
                Map::new(
                    |t: ComponentType| self.store().dom().contains((id, t)),
                    |t: ComponentType| self.store()[(id, t)],
                ),
        )
    }

    open spec fn inv(&self) -> bool {
        self.buckets_wf() && self.dual()
    }

    fn add(&mut self, id: EntityId, table: Table) -> (displaced: Option<Table>) {
        let displaced = self.remove(id);
        let ghost mid0 = *self;
        self.register_id(id);
        proof {
            assert(self.tables@ == mid0.tables@);
            assert(self.entry_type_map@ == mid0.entry_type_map@);
            assert(self.store() == mid0.store());
            assert(self.rev() == mid0.rev());
            // after eviction nothing of `id` is left in the store
            assert forall|t: ComponentType| !#[trigger] self.store().dom().contains((id, t)) by {
                if mid0.store().dom().contains((id, t)) {
                    assert(mid0.fwd_has(id, t));
                    assert(mid0.contents().contains_key(id));
                }
            }
            assert forall|id2: EntityId, t2: ComponentType| #[trigger] self.store().dom().contains(
                (id2, t2),
            ) implies self.fwd_has(id2, t2) && self.rev_has(t2, id2) by {
                assert(mid0.store().dom().contains((id2, t2)));
                assert(mid0.fwd_has(id2, t2) && mid0.rev_has(t2, id2));
            }
            assert forall|id2: EntityId, t2: ComponentType| #[trigger] self.fwd_has(id2, t2)
                implies self.store().dom().contains((id2, t2)) by {
                assert(mid0.fwd_has(id2, t2));
            }
            assert forall|id2: EntityId, t2: ComponentType| #[trigger] self.rev_has(t2, id2)
                implies self.store().dom().contains((id2, t2)) by {
                assert(mid0.rev_has(t2, id2));
            }
            assert(self.inv());
            assert forall|id2: EntityId|
                id2 != id && self.contents().contains_key(id2) implies #[trigger] self.contents()[
            id2] == mid0.contents()[id2] by {
                assert(self.contents()[id2] =~= mid0.contents()[id2]);
            }
            assert(self.contents()[id] =~= Map::<ComponentType, Component>::empty());
            assert(self.contents() =~~= old(self).contents().remove(id).insert(
                id,
                Map::<ComponentType, Component>::empty(),
            ));
            assert(self.contents().contains_key(id));
        }
        let pairs = table.pairs();
        let ghost ps = pairs@;
        proof {
            assert(ps.subrange(0, 0).len() == 0);
        }
        let mut i: usize = 0;
        while i < pairs.len()
            invariant
                self.inv(),
                pairs@ == ps,
                distinct_keys(ps),
                assoc_map(ps) == table@,
                forall|k: int| 0 <= k < ps.len() ==> (#[trigger] ps[k]).0 == ps[k].1.to_type(),
                i <= ps.len(),
                self.contents().contains_key(id),
                self.contents() == old(self).contents().remove(id).insert(
                    id,
                    assoc_map(ps.subrange(0, i as int)),
                ),
            decreases ps.len() - i,
        {
            let entry = pairs[i].1;
            let ghost pre = self.contents();
            self.add_component(id, entry);
            proof {
                assert(ps.subrange(0, i + 1 as int) =~= ps.subrange(0, i as int).push(ps[i as int]));
                assert(forall|k: int|
                    0 <= k < i ==> (#[trigger] ps.subrange(0, i as int)[k]).0 != ps[i as int].0);
                lemma_assoc_push(ps.subrange(0, i as int), ps[i as int].0, ps[i as int].1);
                assert(pre[id] == assoc_map(ps.subrange(0, i as int)));
                assert(self.contents() == pre.insert(id, pre[id].insert(entry.to_type(), entry)));
                assert(entry.to_type() == ps[i as int].0);
                assert(self.contents() =~~= old(self).contents().remove(id).insert(
                    id,
                    assoc_map(ps.subrange(0, i + 1 as int)),
                ));
            }
            i = i + 1;
        }
        proof {
            assert(ps.subrange(0, ps.len() as int) =~= ps);
            assert(self.contents() =~~= old(self).contents().insert(id, table@));
        }
        displaced
    }

    fn remove(&mut self, id: EntityId) -> (removed: Option<Table>) {
        let idx = match self.find_fwd_idx(id) {
            Some(i) => i,
            None => {
                proof {
                    lemma_assoc_absent(self.entry_types@, id);
                    assert(self.contents() =~~= old(self).contents().remove(id));
                }
                return None;
            }
        };
        proof {
            lemma_assoc_index(self.entry_types@, idx as int);
        }
        // snapshot the entity's discriminants
        let mut types: Vec<ComponentType> = Vec::new();
        let mut j: usize = 0;
        let n = self.entry_types[idx].1.len();
        while j < n
            invariant
                j <= n,
                idx < self.entry_types@.len(),
                n == self.entry_types@[idx as int].1@.len(),
                types@ =~= self.entry_types@[idx as int].1@.subrange(0, j as int),
            decreases n - j,
        {
            let t = self.entry_types[idx].1[j];
            types.push(t);
            j = j + 1;
        }
        let ghost bucket = self.entry_types@[idx as int].1@;
        let ghost c0 = self.contents();
        let ghost tbl0 = c0[id];
        proof {
            assert(types@ =~= bucket);
            assert(self.fwd().contains_key(id) && self.fwd()[id]
                == self.entry_types@[idx as int].1);
            assert(bucket.no_duplicates());
            assert(c0.contains_key(id));
            // at the start, the bucket and the entity's component map agree
            assert forall|t: ComponentType| #[trigger] tbl0.contains_key(t) <==> bucket.contains(
                t,
            ) by {
                if tbl0.contains_key(t) {
                    assert(self.store().dom().contains((id, t)));
                    assert(self.fwd_has(id, t));
                }
                if bucket.contains(t) {
                    assert(self.fwd_has(id, t));
                    assert(self.store().dom().contains((id, t)));
                }
            }
            assert forall|t: ComponentType| #[trigger] tbl0.contains_key(t)
                implies tbl0[t].to_type() == t by {
                assert(self.store().dom().contains((id, t)));
                self.lemma_store_tagged(id, t);
                assert(tbl0[t] == self.store()[(id, t)]);
            }
            assert(tbl0.remove_keys(bucket.subrange(0, 0).to_set()) =~= tbl0);
            assert(c0.insert(id, tbl0) =~= c0);
        }
        let mut result = Table::new();
        proof {
            assert(result@ =~= tbl0.restrict(bucket.subrange(0, 0).to_set()));
        }
        let mut k: usize = 0;
        while k < types.len()
            invariant
                self.inv(),
                types@ == bucket,
                bucket.no_duplicates(),
                k <= bucket.len(),
                result.wf(),
                c0 == old(self).contents(),
                c0.contains_key(id),
                tbl0 == c0[id],
                forall|t: ComponentType| #[trigger] tbl0.contains_key(t) <==> bucket.contains(t),
                forall|t: ComponentType|
                    #[trigger] tbl0.contains_key(t) ==> tbl0[t].to_type() == t,
                self.contents() == c0.insert(
                    id,
                    tbl0.remove_keys(bucket.subrange(0, k as int).to_set()),
                ),
                result@ == tbl0.restrict(bucket.subrange(0, k as int).to_set()),
            decreases types@.len() - k,
        {
            let t = types[k];
            let ghost prefix = bucket.subrange(0, k as int);
            let ghost prefix1 = bucket.subrange(0, k + 1 as int);
            proof {
                assert(bucket[k as int] == t);
                assert(bucket.contains(t));
                assert(!prefix.contains(t)) by {
                    if prefix.contains(t) {
                        let a = choose|a: int| 0 <= a < k && #[trigger] prefix[a] == t;
                        assert(bucket[a] == t && bucket[k as int] == t);
                    }
                }
                assert forall|a: int, b: int| 0 <= a < b < prefix.len() implies prefix[a]
                    != prefix[b] by {
                    assert(prefix[a] == bucket[a] && prefix[b] == bucket[b]);
                }
                lemma_nodup_push(prefix, t);
                assert(prefix1 =~= prefix.push(t));
                assert(prefix1.to_set() =~= prefix.to_set().insert(t));
                assert(self.contents().contains_key(id));
                assert(self.contents()[id] == tbl0.remove_keys(prefix.to_set()));
                assert(self.contents()[id].contains_key(t));
            }
            let ghost pre = self.contents();
            let removed_c = self.remove_component(id, t);
            let c = match removed_c {
                Some(c) => c,
                None => {
                    proof {
                        assert(false);
                    }
                    Component::NullComponent
                }
            };
            proof {
                assert(c == pre[id][t]);
                assert(c == tbl0[t]);
                assert(c.to_type() == t);
            }
            result.add(c);
            proof {
                assert(self.contents() == pre.insert(id, pre[id].remove(t)));
                assert(pre[id].remove(t) =~= tbl0.remove_keys(prefix1.to_set()));
                assert(self.contents() =~= c0.insert(id, tbl0.remove_keys(prefix1.to_set())));
                assert(result@ =~= tbl0.restrict(prefix1.to_set()));
            }
            k = k + 1;
        }
        proof {
            assert(bucket.subrange(0, bucket.len() as int) =~= bucket);
            assert(tbl0.remove_keys(bucket.to_set()) =~= Map::<ComponentType, Component>::empty());
            assert(self.contents()[id] =~= Map::<ComponentType, Component>::empty());
            // nothing of the entity remains: its component map is now empty,
            // so by duality the forward index lists nothing for it
            assert forall|t: ComponentType| !#[trigger] self.fwd_has(id, t) by {
                if self.fwd_has(id, t) {
                    assert(self.store().dom().contains((id, t)));
                    assert(self.contents().contains_key(id));
                    assert(self.contents()[id].contains_key(t));
                }
            }
            assert(self.fwd().contains_key(id));
            assert(result@ =~= tbl0.restrict(bucket.to_set()));
            assert(result@ =~= tbl0);
        }
        let ghost mid = *self;
        self.unregister_id(id);
        proof {
            assert(self.tables@ == mid.tables@);
            assert(self.entry_type_map@ == mid.entry_type_map@);
            assert(self.store() == mid.store());
            assert(self.rev() == mid.rev());
            assert forall|id2: EntityId, t2: ComponentType| #[trigger] self.store().dom().contains(
                (id2, t2),
            ) implies self.fwd_has(id2, t2) && self.rev_has(t2, id2) by {
                assert(mid.store().dom().contains((id2, t2)));
                assert(mid.fwd_has(id2, t2) && mid.rev_has(t2, id2));
            }
            assert forall|id2: EntityId, t2: ComponentType| #[trigger] self.fwd_has(id2, t2)
                implies self.store().dom().contains((id2, t2)) by {
                assert(mid.fwd_has(id2, t2));
            }
            assert forall|id2: EntityId, t2: ComponentType| #[trigger] self.rev_has(t2, id2)
                implies self.store().dom().contains((id2, t2)) by {
                assert(mid.rev_has(t2, id2));
            }
            assert(self.inv());
            assert forall|id2: EntityId|
                id2 != id && mid.contents().contains_key(id2) implies #[trigger] self.contents()[
                id2] == mid.contents()[id2] by {
                assert(self.contents()[id2] =~= mid.contents()[id2]);
            }
            assert(self.contents() =~~= old(self).contents().remove(id));
        }
        Some(result)
    }

    fn contains_id(&self, id: EntityId) -> (r: bool) {
        match self.find_fwd_idx(id) {
            Some(i) => {
                proof {
                    lemma_assoc_index(self.entry_types@, i as int);
                }
                true
            }
            None => {
                proof {
                    lemma_assoc_absent(self.entry_types@, id);
                }
                false
            }
        }
    }

    fn get_component(&self, id: EntityId, entry_type: ComponentType) -> (r: Option<&Component>) {
        match self.find_tbl_idx(id, entry_type) {
            Some(i) => {
                proof {
                    lemma_assoc_index(self.tables@, i as int);
                }
                Some(&self.tables[i].1)
            }
            None => {
                proof {
                    lemma_assoc_absent(self.tables@, (id, entry_type));
                }
                None
            }
        }
    }

    fn components_of(&self, id: EntityId) -> (r: Vec<(ComponentType, Component)>) {
        let idx = match self.find_fwd_idx(id) {
            Some(i) => i,
            None => {
                proof {
                    lemma_assoc_absent(self.entry_types@, id);
                    assert(false);
                }
                return Vec::new();
            }
        };
        proof {
            lemma_assoc_index(self.entry_types@, idx as int);
        }
        let ghost bucket = self.entry_types@[idx as int].1@;
        let mut r: Vec<(ComponentType, Component)> = Vec::new();
        let mut j: usize = 0;
        let n = self.entry_types[idx].1.len();
        while j < n
            invariant
                self.inv(),
                j <= n,
                idx < self.entry_types@.len(),
                self.entry_types@[idx as int].0 == id,
                self.entry_types@[idx as int].1@ == bucket,
                n == bucket.len(),
                self.fwd().contains_key(id),
                self.fwd()[id]@ == bucket,
                r@.len() == j,
                forall|a: int|
                    0 <= a < j ==> (#[trigger] r@[a]).0 == bucket[a] && r@[a].1 == self.store()[
                        (id, bucket[a])
                    ],
            decreases n - j,
        {
            let t = self.entry_types[idx].1[j];
            proof {
                assert(bucket[j as int] == t);
                assert(bucket.contains(t));
                assert(self.fwd_has(id, t));
            }
            match self.find_tbl_idx(id, t) {
                Some(sidx) => {
                    proof {
                        lemma_assoc_index(self.tables@, sidx as int);
                    }
                    r.push((t, self.tables[sidx].1));
                }
                None => {
                    proof {
                        lemma_assoc_absent(self.tables@, (id, t));
                        assert(false);
                    }
                }
            }
            j = j + 1;
        }
        proof {
            assert(bucket.no_duplicates());
            assert forall|a: int, b: int| 0 <= a < b < r@.len() implies (#[trigger] r@[a]).0 != (
            #[trigger] r@[b]).0 by {
                assert(r@[a].0 == bucket[a] && r@[b].0 == bucket[b]);
            }
            let m = self.contents()[id];
            assert forall|t: ComponentType| #[trigger] assoc_map(r@).dom().contains(t)
                == m.contains_key(t) by {
                if assoc_map(r@).dom().contains(t) {
                    lemma_assoc_dom(r@, t);
                    let a = choose|a: int| 0 <= a < r@.len() && (#[trigger] r@[a]).0 == t;
                    assert(bucket[a] == t);
                    assert(bucket.contains(t));
                    assert(self.fwd_has(id, t));
                }
                if m.contains_key(t) {
                    assert(self.store().dom().contains((id, t)));
                    assert(self.fwd_has(id, t));
                    let a = choose|a: int| 0 <= a < bucket.len() && bucket[a] == t;
                    assert(r@[a].0 == t);
                    lemma_assoc_index(r@, a);
                }
            }
            assert forall|t: ComponentType| assoc_map(r@).dom().contains(t) implies #[trigger] assoc_map(
                r@,
            )[t] == m[t] by {
                lemma_assoc_dom(r@, t);
                let a = choose|a: int| 0 <= a < r@.len() && (#[trigger] r@[a]).0 == t;
                lemma_assoc_index(r@, a);
            }
            assert(assoc_map(r@) =~= m);
            assert forall|a: int| 0 <= a < r@.len() implies (#[trigger] r@[a]).0
                == r@[a].1.to_type() by {
                assert(bucket.contains(bucket[a]));
                assert(self.fwd_has(id, bucket[a]));
                assert(self.store().dom().contains((id, bucket[a])));
                self.lemma_store_tagged(id, bucket[a]);
            }
        }
        r
    }

    fn add_component(&mut self, id: EntityId, entry: Component) -> (displaced: Option<Component>) {
        let t = entry.to_type();
        self.add_type(id, t);
        let ghost mid = *self;
        let displaced: Option<Component>;
        match self.find_tbl_idx(id, t) {
            Some(i) => {
                proof {
                    lemma_assoc_index(self.tables@, i as int);
                    lemma_assoc_remove(self.tables@, i as int);
                }
                let (_, old_c) = self.tables.remove(i);
                proof {
                    lemma_assoc_push(self.tables@, (id, t), entry);
                }
                self.tables.push(((id, t), entry));
                proof {
                    assert(self.store() =~= mid.store().insert((id, t), entry));
                }
                displaced = Some(old_c);
            }
            None => {
                proof {
                    lemma_assoc_absent(self.tables@, (id, t));
                    lemma_assoc_push(self.tables@, (id, t), entry);
                }
                self.tables.push(((id, t), entry));
                proof {
                    assert(self.store() =~= mid.store().insert((id, t), entry));
                }
                displaced = None;
            }
        }
        proof {
            assert(old(self).dual());
            assert(self.entry_types@ == mid.entry_types@);
            assert(self.entry_type_map@ == mid.entry_type_map@);
            assert(self.fwd() == mid.fwd());
            assert(self.rev() == mid.rev());
            assert(mid.tables@ == old(self).tables@);
            assert(mid.store() == old(self).store());
            assert forall|id2: EntityId, t2: ComponentType| #[trigger] self.store().dom().contains(
                (id2, t2),
            ) implies self.fwd_has(id2, t2) && self.rev_has(t2, id2) by {
                assert(mid.fwd_has(id, t) && mid.rev_has(t, id));
                if id2 != id || t2 != t {
                    assert(old(self).store().dom().contains((id2, t2)));
                    assert(old(self).fwd_has(id2, t2) && old(self).rev_has(t2, id2));
                    assert(mid.fwd_has(id2, t2) && mid.rev_has(t2, id2));
                }
            }
            assert forall|id2: EntityId, t2: ComponentType| #[trigger] self.fwd_has(id2, t2)
                implies self.store().dom().contains((id2, t2)) by {
                assert(mid.fwd_has(id2, t2));
                if id2 != id || t2 != t {
                    assert(old(self).fwd_has(id2, t2));
                }
            }
            assert forall|id2: EntityId, t2: ComponentType| #[trigger] self.rev_has(t2, id2)
                implies self.store().dom().contains((id2, t2)) by {
                assert(mid.rev_has(t2, id2));
                if id2 != id || t2 != t {
                    assert(old(self).rev_has(t2, id2));
                }
            }
            let c0 = old(self).contents();
            assert forall|id2: EntityId|
                id2 != id && c0.contains_key(id2) implies #[trigger] self.contents()[id2]
                == c0[id2] by {
                assert(self.contents()[id2] =~= c0[id2]);
            }
            assert(self.contents()[id] =~= c0[id].insert(t, entry));
            assert(self.contents() =~~= c0.insert(id, c0[id].insert(t, entry)));
        }
        displaced
    }

    fn remove_component(&mut self, id: EntityId, entry_type: ComponentType) -> (removed: Option<
        Component,
    >) {
        let removed: Option<Component>;
        match self.find_tbl_idx(id, entry_type) {
            Some(i) => {
                proof {
                    lemma_assoc_index(self.tables@, i as int);
                    lemma_assoc_remove(self.tables@, i as int);
                }
                let (_, old_c) = self.tables.remove(i);
                removed = Some(old_c);
            }
            None => {
                proof {
                    lemma_assoc_absent(self.tables@, (id, entry_type));
                }
                removed = None;
            }
        }
        let ghost mid = *self;
        self.remove_type(id, entry_type);
        proof {
            assert(self.store() == mid.store());
            let key = (id, entry_type);
            assert forall|id2: EntityId, t2: ComponentType| #[trigger] self.store().dom().contains(
                (id2, t2),
            ) implies self.fwd_has(id2, t2) && self.rev_has(t2, id2) by {
                assert(old(self).store().dom().contains((id2, t2)) || (id2, t2) == key);
                if (id2, t2) == key {
                    assert(removed is Some);
                    assert(false);
                }
                assert(old(self).fwd_has(id2, t2) && old(self).rev_has(t2, id2));
            }
            assert forall|id2: EntityId, t2: ComponentType| #[trigger] self.fwd_has(id2, t2)
                implies self.store().dom().contains((id2, t2)) by {
                assert(old(self).fwd_has(id2, t2) && !(id2 == id && t2 == entry_type));
                assert(old(self).store().dom().contains((id2, t2)));
            }
            assert forall|id2: EntityId, t2: ComponentType| #[trigger] self.rev_has(t2, id2)
                implies self.store().dom().contains((id2, t2)) by {
                assert(old(self).rev_has(t2, id2) && !(id2 == id && t2 == entry_type));
                assert(old(self).store().dom().contains((id2, t2)));
            }
            let c0 = old(self).contents();
            assert forall|id2: EntityId|
                id2 != id && c0.contains_key(id2) implies #[trigger] self.contents()[id2]
                == c0[id2] by {
                assert(self.contents()[id2] =~= c0[id2]);
            }
            assert(self.contents()[id] =~= c0[id].remove(entry_type));
            assert(self.contents() =~~= c0.insert(id, c0[id].remove(entry_type)));
        }
        removed
    }
}

impl FlatTableTable {
    /// The reverse query this backend exists for: every entity currently
    /// holding a component of the given discriminant, straight from the
    /// reverse-index bucket. `None` only when no bucket was ever made for
    /// the discriminant, in which case no entity holds it.
    pub fn entry_type(&self, entry_type: ComponentType) -> (r: Option<&Vec<EntityId>>)
        requires
            self.inv(),
        ensures
            match r {
                Some(ids) => ids@.no_duplicates() && forall|id: EntityId|
                    #[trigger] ids@.contains(id) <==> (self.contents().contains_key(id)
                        && self.contents()[id].contains_key(entry_type)),
                None => forall|id: EntityId|
                    #[trigger] self.contents().contains_key(id) ==> !self.contents()[
                    id].contains_key(entry_type),
            },
    {
        match self.find_rev_idx(entry_type) {
            Some(i) => {
                proof {
                    lemma_assoc_index(self.entry_type_map@, i as int);
                }
                let ids = &self.entry_type_map[i].1;
                proof {
                    assert(self.rev().contains_key(entry_type) && self.rev()[entry_type]
                        == self.entry_type_map@[i as int].1);
                    assert forall|id: EntityId| #[trigger] ids@.contains(id)
                        <==> (self.contents().contains_key(id) && self.contents()[
                    id].contains_key(entry_type)) by {
                        if ids@.contains(id) {
                            assert(self.rev_has(entry_type, id));
                            assert(self.store().dom().contains((id, entry_type)));
                            assert(self.fwd_has(id, entry_type));
                        }
                        if self.contents().contains_key(id) && self.contents()[id].contains_key(
                            entry_type,
                        ) {
                            assert(self.store().dom().contains((id, entry_type)));
                            assert(self.rev_has(entry_type, id));
                        }
                    }
                }
                Some(ids)
            }
            None => {
                proof {
                    lemma_assoc_absent(self.entry_type_map@, entry_type);
                    assert forall|id: EntityId| #[trigger] self.contents().contains_key(id)
                        implies !self.contents()[id].contains_key(entry_type) by {
                        if self.contents()[id].contains_key(entry_type) {
                            assert(self.store().dom().contains((id, entry_type)));
                            assert(self.rev_has(entry_type, id));
                        }
                    }
                }
                None
            }
        }
    }
}

/// The dual-index consistency law: the sets of (entity, discriminant) pairs
/// derivable from the forward index, from the reverse index, and from the
/// flattened store itself are all one and the same, and they are exactly the
/// pairs the abstract contents record.
pub proof fn lemma_dual_index_consistent(ft: &FlatTableTable)
    requires
        ft.inv(),
    ensures
        forall|id: EntityId, t: ComponentType|
            #[trigger] ft.fwd_has(id, t) <==> ft.store().dom().contains((id, t)),
        forall|id: EntityId, t: ComponentType|
            #[trigger] ft.rev_has(t, id) <==> ft.store().dom().contains((id, t)),
        forall|id: EntityId, t: ComponentType|
            #[trigger] ft.store().dom().contains((id, t)) <==> ft.contents().contains_key(id)
                && ft.contents()[id].contains_key(t),
{
    assert forall|id: EntityId, t: ComponentType| #[trigger] ft.store().dom().contains((id, t))
        implies ft.contents().contains_key(id) && ft.contents()[id].contains_key(t) by {
        assert(ft.fwd_has(id, t));
    }
}

} // verus!
