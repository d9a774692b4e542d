//! The spatial index: a grid of cells, each keeping aggregates over the
//! entities occupying that coordinate — id membership, a per-discriminant
//! occupancy counter, the summed opacity, and the turn of the last mutation.
//! Cells are synchronized with the canonical store by replaying the same
//! [`crate::update::UpdateSummary`] the store commits, never by rescanning.

use vstd::prelude::*;
use crate::assoc::{assoc_map, distinct_keys, lemma_assoc_absent, lemma_assoc_index,
    lemma_assoc_push, lemma_assoc_update, lemma_nodup_push, lemma_nodup_remove};
use crate::entity::{Component, ComponentType, EntityId, LevelId, Vector2};
use crate::table::spec_position;

verus! {

/// The abstract value of one cell: what its aggregates claim about the
/// world at its coordinate.
pub ghost struct CellView {
    /// Ids of the entities occupying the coordinate.
    pub entities: Set<EntityId>,
    /// For each discriminant, how many occupants carry it.
    pub counts: Map<ComponentType, int>,
    /// The summed opacity contributions of the occupants.
    pub opacity: int,
    /// The turn of the most recent mutation this cell observed.
    pub last_updated: u64,
}

/// The opacity contribution one component map makes to its cell.
pub open spec fn opacity_of(m: Map<ComponentType, Component>) -> int {
    if m.contains_key(ComponentType::Opacity) {
        m[ComponentType::Opacity].opacity_value() as int
    } else {
        0
    }
}

/// A cell after an entity with components `m` settles on it. Attaching an
/// id already present changes nothing.
pub open spec fn cv_attach(c: CellView, id: EntityId, m: Map<ComponentType, Component>) -> CellView {
    if c.entities.contains(id) {
        c
    } else {
        CellView {
            entities: c.entities.insert(id),
            counts: Map::new(
                |t: ComponentType| true,
                |t: ComponentType| c.counts[t] + if m.contains_key(t) {
                    1int
                } else {
                    0int
                },
            ),
            opacity: c.opacity + opacity_of(m),
            last_updated: c.last_updated,
        }
    }
}

/// A cell after an entity with components `m` leaves it. Detaching an id
/// that is not present changes nothing.
pub open spec fn cv_detach(c: CellView, id: EntityId, m: Map<ComponentType, Component>) -> CellView {
    if !c.entities.contains(id) {
        c
    } else {
        CellView {
            entities: c.entities.remove(id),
            counts: Map::new(
                |t: ComponentType| true,
                |t: ComponentType| c.counts[t] - if m.contains_key(t) {
                    1int
                } else {
                    0int
                },
            ),
            opacity: c.opacity - opacity_of(m),
            last_updated: c.last_updated,
        }
    }
}

/// The opacity delta of overwriting components `m` with changes `ch`: only
/// the numeric difference is applied where an opacity is overwritten.
pub open spec fn delta_opacity(
    m: Map<ComponentType, Component>,
    ch: Map<ComponentType, Component>,
) -> int {
    if ch.contains_key(ComponentType::Opacity) {
        if m.contains_key(ComponentType::Opacity) {
            ch[ComponentType::Opacity].opacity_value()
                - m[ComponentType::Opacity].opacity_value()
        } else {
            ch[ComponentType::Opacity].opacity_value() as int
        }
    } else {
        0
    }
}

/// A cell after the non-position component changes `ch` are applied to an
/// occupant currently carrying `m`: fresh discriminants are counted, pure
/// overwrites are not, and opacity moves by its delta.
pub open spec fn cv_changes(
    c: CellView,
    m: Map<ComponentType, Component>,
    ch: Map<ComponentType, Component>,
) -> CellView {
    CellView {
        entities: c.entities,
        counts: Map::new(
            |t: ComponentType| true,
            |t: ComponentType| c.counts[t] + if ch.contains_key(t) && t != ComponentType::Position
                && !m.contains_key(t) {
                1int
            } else {
                0int
            },
        ),
        opacity: c.opacity + delta_opacity(m, ch),
        last_updated: c.last_updated,
    }
}

/// A cell after the discriminants `ts` are removed from an occupant
/// carrying `m`: counters drop and any opacity contribution is subtracted.
pub open spec fn cv_removes(
    c: CellView,
    m: Map<ComponentType, Component>,
    ts: Seq<ComponentType>,
) -> CellView {
    CellView {
        entities: c.entities,
        counts: Map::new(
            |t: ComponentType| true,
            |t: ComponentType| c.counts[t] - if ts.contains(t) && m.contains_key(t) {
                1int
            } else {
                0int
            },
        ),
        opacity: c.opacity - if ts.contains(ComponentType::Opacity) {
            opacity_of(m)
        } else {
            0
        },
        last_updated: c.last_updated,
    }
}

/// A cell stamped with the turn of the mutation it just observed.
pub open spec fn cv_stamp(c: CellView, turn_count: u64) -> CellView {
    CellView { last_updated: turn_count, ..c }
}

/// One grid cell's aggregate summary of the entities occupying it.
pub struct SpatialHashCell {
    entities: Vec<EntityId>,
    components: Vec<(ComponentType, usize)>,
    opacity: u64,
    last_updated: u64,
}

impl SpatialHashCell {
    /// Internal well-formedness: no id listed twice, one counter slot per
    /// discriminant.
    pub closed spec fn wf(&self) -> bool {
        &&& self.entities@.no_duplicates()
        &&& distinct_keys(self.components@)
    }

    /// The stored counter of a discriminant, zero when it has no slot.
    pub closed spec fn count(&self, t: ComponentType) -> int {
        if assoc_map(self.components@).dom().contains(t) {
            assoc_map(self.components@)[t] as int
        } else {
            0
        }
    }
}

impl View for SpatialHashCell {
    type V = CellView;

    closed spec fn view(&self) -> CellView {
        CellView {
            entities: self.entities@.to_set(),
            counts: Map::new(|t: ComponentType| true, |t: ComponentType| self.count(t)),
            opacity: self.opacity as int,
            last_updated: self.last_updated,
        }
    }
}

impl SpatialHashCell {
    /// A cell observing nothing: no occupants, all counters zero, no
    /// opacity, never updated.
    pub fn new() -> (r: SpatialHashCell)
        ensures
            r.wf(),
            r@.entities == Set::<EntityId>::empty(),
            r@.counts == Map::new(|t: ComponentType| true, |t: ComponentType| 0int),
            r@.opacity == 0,
            r@.last_updated == 0,
    {
        let r = SpatialHashCell {
            entities: Vec::new(),
            components: Vec::new(),
            opacity: 0,
            last_updated: 0,
        };
        proof {
            assert(r@.entities =~= Set::<EntityId>::empty());
            assert(r@.counts =~= Map::new(|t: ComponentType| true, |t: ComponentType| 0int));
        }
        r
    }

    /// Whether at least one occupant carries the discriminant.
    pub fn has(&self, component_type: ComponentType) -> (r: bool)
        requires
            self.wf(),
        ensures
            r == (self@.counts[component_type] != 0),
    {
        match self.find_count_idx(component_type) {
            Some(i) => {
                proof {
                    lemma_assoc_index(self.components@, i as int);
                }
                self.components[i].1 != 0
            }
            None => {
                proof {
                    lemma_assoc_absent(self.components@, component_type);
                }
                false
            }
        }
    }

    /// The occupancy counter of a discriminant.
    pub fn get_count(&self, component_type: ComponentType) -> (r: usize)
        requires
            self.wf(),
        ensures
            r == self@.counts[component_type],
    {
        match self.find_count_idx(component_type) {
            Some(i) => {
                proof {
                    lemma_assoc_index(self.components@, i as int);
                }
                self.components[i].1
            }
            None => {
                proof {
                    lemma_assoc_absent(self.components@, component_type);
                }
                0
            }
        }
    }

    /// The summed opacity of the occupants.
    pub fn opacity(&self) -> (r: u64)
        ensures
            r == self@.opacity,
    {
        self.opacity
    }

    /// The turn of the most recent mutation observed.
    pub fn last_updated(&self) -> (r: u64)
        ensures
            r == self@.last_updated,
    {
        self.last_updated
    }

    /// The occupants as a duplicate-free list, in unspecified order.
    pub fn entities(&self) -> (r: &Vec<EntityId>)
        requires
            self.wf(),
        ensures
            r@.no_duplicates(),
            r@.to_set() == self@.entities,
    {
        &self.entities
    }

    /// Index of the counter slot of a discriminant, if present.
    fn find_count_idx(&self, t: ComponentType) -> (r: Option<usize>)
        ensures
            match r {
                Some(i) => i < self.components@.len() && self.components@[i as int].0 == t,
                None => forall|j: int|
                    0 <= j < self.components@.len() ==> (#[trigger] self.components@[j]).0 != t,
            },
    {
        let mut i: usize = 0;
        while i < self.components.len()
            invariant
                i <= self.components@.len(),
                forall|j: int| 0 <= j < i ==> (#[trigger] self.components@[j]).0 != t,
            decreases self.components@.len() - i,
        {
            if self.components[i].0 == t {
                return Some(i);
            }
            i = i + 1;
        }
        None
    }

    /// Index of an id among the occupants, if present.
    fn find_entity_idx(&self, id: EntityId) -> (r: Option<usize>)
        ensures
            match r {
                Some(i) => i < self.entities@.len() && self.entities@[i as int] == id,
                None => !self.entities@.contains(id),
            },
    {
        let mut i: usize = 0;
        while i < self.entities.len()
            invariant
                i <= self.entities@.len(),
                forall|j: int| 0 <= j < i ==> self.entities@[j] != id,
            decreases self.entities@.len() - i,
        {
            if self.entities[i] == id {
                return Some(i);
            }
            i = i + 1;
        }
        None
    }

    /// Set a counter to a value, creating its slot if need be.
    fn set_count(&mut self, t: ComponentType, new_count: usize)
        requires
            old(self).wf(),
        ensures
            final(self).wf(),
            final(self)@ == (CellView {
                counts: old(self)@.counts.insert(t, new_count as int),
                ..old(self)@
            }),
    {
        match self.find_count_idx(t) {
            Some(i) => {
                proof {
                    lemma_assoc_index(self.components@, i as int);
                    lemma_assoc_update(self.components@, i as int, new_count);
                }
                self.components[i] = (t, new_count);
            }
            None => {
                proof {
                    lemma_assoc_absent(self.components@, t);
                    lemma_assoc_push(self.components@, t, new_count);
                }
                self.components.push((t, new_count));
            }
        }
        proof {
            assert(self@.counts =~= old(self)@.counts.insert(t, new_count as int));
            assert(self@.entities =~= old(self)@.entities);
        }
    }

    /// Bump a counter by one.
    fn increment_count(&mut self, t: ComponentType)
        requires
            old(self).wf(),
            old(self)@.counts[t] < usize::MAX,
        ensures
            final(self).wf(),
            final(self)@ == (CellView {
                counts: old(self)@.counts.insert(t, old(self)@.counts[t] + 1),
                ..old(self)@
            }),
    {
        let count = self.get_count(t);
        self.set_count(t, count + 1);
    }

    /// Drop a counter by one.
    fn decrement_count(&mut self, t: ComponentType)
        requires
            old(self).wf(),
            old(self)@.counts[t] >= 1,
        ensures
            final(self).wf(),
            final(self)@ == (CellView {
                counts: old(self)@.counts.insert(t, old(self)@.counts[t] - 1),
                ..old(self)@
            }),
    {
        let count = self.get_count(t);
        self.set_count(t, count - 1);
    }
}

impl SpatialHashCell {
    /// Record an entity settling on this cell: list its id and add every
    /// component contribution it carries. A second settling of the same id
    /// changes nothing.
    fn add_entity(&mut self, id: EntityId, pairs: &Vec<(ComponentType, Component)>)
        requires
            old(self).wf(),
            distinct_keys(pairs@),
            forall|i: int| 0 <= i < pairs@.len() ==> (#[trigger] pairs@[i]).0 == pairs@[i].1.to_type(),
            !old(self)@.entities.contains(id) ==> {
                &&& forall|t: ComponentType|
                    assoc_map(pairs@).contains_key(t) ==> old(self)@.counts[t] < usize::MAX
                &&& old(self)@.opacity + opacity_of(assoc_map(pairs@)) <= u64::MAX
            },
        ensures
            final(self).wf(),
            final(self)@ == cv_attach(old(self)@, id, assoc_map(pairs@)),
    {
        let ghost m = assoc_map(pairs@);
        match self.find_entity_idx(id) {
            Some(_) => {
                proof {
                    assert(self@.entities.contains(id));
                }
            }
            None => {
                proof {
                    lemma_nodup_push(self.entities@, id);
                }
                self.entities.push(id);
                let ghost c1 = *self;
                proof {
                    assert(self@.entities =~= old(self)@.entities.insert(id));
                    assert(self@.counts =~= Map::new(
                        |t: ComponentType| true,
                        |t: ComponentType| old(self)@.counts[t] + if assoc_map(
                            pairs@.subrange(0, 0),
                        ).contains_key(t) {
                            1int
                        } else {
                            0int
                        },
                    )) by {
                        assert(pairs@.subrange(0, 0).len() == 0);
                        assert(self@.counts =~= old(self)@.counts);
                    }
                    assert(pairs@.subrange(0, 0).len() == 0);
                }
                let mut j: usize = 0;
                while j < pairs.len()
                    invariant
                        self.wf(),
                        j <= pairs@.len(),
                        distinct_keys(pairs@),
                        forall|i: int|
                            0 <= i < pairs@.len() ==> (#[trigger] pairs@[i]).0
                                == pairs@[i].1.to_type(),
                        m == assoc_map(pairs@),
                        forall|t: ComponentType|
                            m.contains_key(t) ==> old(self)@.counts[t] < usize::MAX,
                        old(self)@.opacity + opacity_of(m) <= u64::MAX,
                        self@.entities == old(self)@.entities.insert(id),
                        self@.last_updated == old(self)@.last_updated,
                        self@.counts == Map::new(
                            |t: ComponentType| true,
                            |t: ComponentType| old(self)@.counts[t] + if assoc_map(
                                pairs@.subrange(0, j as int),
                            ).contains_key(t) {
                                1int
                            } else {
                                0int
                            },
                        ),
                        self@.opacity == old(self)@.opacity + opacity_of(
                            assoc_map(pairs@.subrange(0, j as int)),
                        ),
                    decreases pairs@.len() - j,
                {
                    let (t, c) = pairs[j];
                    let ghost prefix = pairs@.subrange(0, j as int);
                    let ghost prefix1 = pairs@.subrange(0, j + 1 as int);
                    proof {
                        assert(prefix1 =~= prefix.push(pairs@[j as int]));
                        assert(forall|a: int|
                            0 <= a < j ==> (#[trigger] prefix[a]).0 != pairs@[j as int].0);
                        lemma_assoc_push(prefix, pairs@[j as int].0, pairs@[j as int].1);
                        lemma_assoc_absent(prefix, t);
                        lemma_assoc_index(pairs@, j as int);
                        assert(m.contains_key(t));
                        assert(self@.counts[t] == old(self)@.counts[t]);
                    }
                    self.increment_count(t);
                    proof {
                        assert(self@.counts =~= Map::new(
                            |t2: ComponentType| true,
                            |t2: ComponentType| old(self)@.counts[t2] + if assoc_map(
                                prefix1,
                            ).contains_key(t2) {
                                1int
                            } else {
                                0int
                            },
                        ));
                    }
                    if let Component::Opacity(o) = c {
                        proof {
                            assert(t == ComponentType::Opacity);
                            assert(!assoc_map(prefix).dom().contains(ComponentType::Opacity));
                            assert(opacity_of(assoc_map(prefix)) == 0);
                            assert(self@.opacity == old(self)@.opacity);
                            assert(m[ComponentType::Opacity] == c);
                            assert(opacity_of(m) == o as int);
                        }
                        self.opacity = self.opacity + o as u64;
                        proof {
                            assert(assoc_map(prefix1)[ComponentType::Opacity] == c);
                            assert(opacity_of(assoc_map(prefix1)) == o as int);
                        }
                    } else {
                        proof {
                            assert(t != ComponentType::Opacity);
                            assert(assoc_map(prefix1).contains_key(ComponentType::Opacity)
                                == assoc_map(prefix).contains_key(ComponentType::Opacity));
                            if assoc_map(prefix).contains_key(ComponentType::Opacity) {
                                assert(assoc_map(prefix1)[ComponentType::Opacity] == assoc_map(
                                    prefix,
                                )[ComponentType::Opacity]);
                            }
                            assert(opacity_of(assoc_map(prefix1)) == opacity_of(assoc_map(prefix)));
                        }
                    }
                    j = j + 1;
                }
                proof {
                    assert(pairs@.subrange(0, pairs@.len() as int) =~= pairs@);
                    assert(self@.counts =~= cv_attach(old(self)@, id, m).counts);
                    assert(self@ == cv_attach(old(self)@, id, m));
                }
            }
        }
    }

    /// Record an entity leaving this cell: unlist its id and subtract every
    /// component contribution it carries. A departure of an id not listed
    /// changes nothing.
    fn remove_entity(&mut self, id: EntityId, pairs: &Vec<(ComponentType, Component)>)
        requires
            old(self).wf(),
            distinct_keys(pairs@),
            forall|i: int| 0 <= i < pairs@.len() ==> (#[trigger] pairs@[i]).0 == pairs@[i].1.to_type(),
            old(self)@.entities.contains(id) ==> {
                &&& forall|t: ComponentType|
                    assoc_map(pairs@).contains_key(t) ==> old(self)@.counts[t] >= 1
                &&& old(self)@.opacity >= opacity_of(assoc_map(pairs@))
            },
        ensures
            final(self).wf(),
            final(self)@ == cv_detach(old(self)@, id, assoc_map(pairs@)),
    {
        let ghost m = assoc_map(pairs@);
        match self.find_entity_idx(id) {
            None => {
                proof {
                    assert(!self@.entities.contains(id));
                }
            }
            Some(i) => {
                proof {
                    assert(self.entities@[i as int] == id);
                    assert(self@.entities.contains(id));
                    lemma_nodup_remove(self.entities@, i as int);
                }
                self.entities.remove(i);
                proof {
                    assert(self@.entities =~= old(self)@.entities.remove(id));
                    assert(self@.counts =~= Map::new(
                        |t: ComponentType| true,
                        |t: ComponentType| old(self)@.counts[t] - if assoc_map(
                            pairs@.subrange(0, 0),
                        ).contains_key(t) {
                            1int
                        } else {
                            0int
                        },
                    )) by {
                        assert(pairs@.subrange(0, 0).len() == 0);
                        assert(self@.counts =~= old(self)@.counts);
                    }
                    assert(pairs@.subrange(0, 0).len() == 0);
                }
                let mut j: usize = 0;
                while j < pairs.len()
                    invariant
                        self.wf(),
                        j <= pairs@.len(),
                        distinct_keys(pairs@),
                        forall|i2: int|
                            0 <= i2 < pairs@.len() ==> (#[trigger] pairs@[i2]).0
                                == pairs@[i2].1.to_type(),
                        m == assoc_map(pairs@),
                        forall|t: ComponentType| m.contains_key(t) ==> old(self)@.counts[t] >= 1,
                        old(self)@.opacity >= opacity_of(m),
                        self@.entities == old(self)@.entities.remove(id),
                        self@.last_updated == old(self)@.last_updated,
                        self@.counts == Map::new(
                            |t: ComponentType| true,
                            |t: ComponentType| old(self)@.counts[t] - if assoc_map(
                                pairs@.subrange(0, j as int),
                            ).contains_key(t) {
                                1int
                            } else {
                                0int
                            },
                        ),
                        self@.opacity == old(self)@.opacity - opacity_of(
                            assoc_map(pairs@.subrange(0, j as int)),
                        ),
                    decreases pairs@.len() - j,
                {
                    let (t, c) = pairs[j];
                    let ghost prefix = pairs@.subrange(0, j as int);
                    let ghost prefix1 = pairs@.subrange(0, j + 1 as int);
                    proof {
                        assert(prefix1 =~= prefix.push(pairs@[j as int]));
                        assert(forall|a: int|
                            0 <= a < j ==> (#[trigger] prefix[a]).0 != pairs@[j as int].0);
                        lemma_assoc_push(prefix, pairs@[j as int].0, pairs@[j as int].1);
                        lemma_assoc_absent(prefix, t);
                        lemma_assoc_index(pairs@, j as int);
                        assert(m.contains_key(t));
                        assert(self@.counts[t] == old(self)@.counts[t]);
                    }
                    self.decrement_count(t);
                    proof {
                        assert(self@.counts =~= Map::new(
                            |t2: ComponentType| true,
                            |t2: ComponentType| old(self)@.counts[t2] - if assoc_map(
                                prefix1,
                            ).contains_key(t2) {
                                1int
                            } else {
                                0int
                            },
                        ));
                    }
                    if let Component::Opacity(o) = c {
                        proof {
                            assert(t == ComponentType::Opacity);
                            assert(!assoc_map(prefix).dom().contains(ComponentType::Opacity));
                            assert(opacity_of(assoc_map(prefix)) == 0);
                            assert(self@.opacity == old(self)@.opacity);
                            assert(m[ComponentType::Opacity] == c);
                            assert(opacity_of(m) == o as int);
                        }
                        self.opacity = self.opacity - o as u64;
                        proof {
                            assert(assoc_map(prefix1)[ComponentType::Opacity] == c);
                            assert(opacity_of(assoc_map(prefix1)) == o as int);
                        }
                    } else {
                        proof {
                            assert(t != ComponentType::Opacity);
                            assert(assoc_map(prefix1).contains_key(ComponentType::Opacity)
                                == assoc_map(prefix).contains_key(ComponentType::Opacity));
                            if assoc_map(prefix).contains_key(ComponentType::Opacity) {
                                assert(assoc_map(prefix1)[ComponentType::Opacity] == assoc_map(
                                    prefix,
                                )[ComponentType::Opacity]);
                            }
                            assert(opacity_of(assoc_map(prefix1)) == opacity_of(assoc_map(prefix)));
                        }
                    }
                    j = j + 1;
                }
                proof {
                    assert(pairs@.subrange(0, pairs@.len() as int) =~= pairs@);
                    assert(self@.counts =~= cv_detach(old(self)@, id, m).counts);
                    assert(self@ == cv_detach(old(self)@, id, m));
                }
            }
        }
    }

    /// Apply the overwrite of one component by another of the same
    /// discriminant: only an opacity overwrite moves an aggregate, and only
    /// by its numeric difference.
    fn change_component(&mut self, old_c: &Component, new_c: &Component)
        requires
            old(self).wf(),
            (old_c is Opacity && new_c is Opacity) ==> {
                &&& old(self)@.opacity >= old_c.opacity_value()
                &&& old(self)@.opacity - old_c.opacity_value() + new_c.opacity_value()
                    <= u64::MAX
            },
        ensures
            final(self).wf(),
            final(self)@ == if old_c is Opacity && new_c is Opacity {
                CellView {
                    opacity: old(self)@.opacity - old_c.opacity_value() + new_c.opacity_value(),
                    ..old(self)@
                }
            } else {
                old(self)@
            },
    {
        if let Component::Opacity(old_o) = old_c {
            if let Component::Opacity(new_o) = new_c {
                self.opacity = self.opacity - *old_o as u64 + *new_o as u64;
            }
        }
        proof {
            assert(self@.counts =~= old(self)@.counts);
            assert(self@.entities =~= old(self)@.entities);
        }
    }

    /// Count a component newly carried by an occupant, adding any opacity
    /// contribution.
    fn add_component(&mut self, component: &Component)
        requires
            old(self).wf(),
            old(self)@.counts[component.to_type()] < usize::MAX,
            old(self)@.opacity + component.opacity_value() <= u64::MAX,
        ensures
            final(self).wf(),
            final(self)@ == (CellView {
                counts: old(self)@.counts.insert(
                    component.to_type(),
                    old(self)@.counts[component.to_type()] + 1,
                ),
                opacity: old(self)@.opacity + component.opacity_value(),
                ..old(self)@
            }),
    {
        self.increment_count(component.to_type());
        let ghost mid = self@;
        if let Component::Opacity(o) = component {
            self.opacity = self.opacity + *o as u64;
        }
        proof {
            assert(self@.counts =~= mid.counts);
            assert(self@.entities =~= mid.entities);
        }
    }

    /// Discount a component no longer carried by an occupant, subtracting
    /// any opacity contribution.
    fn remove_component(&mut self, component: &Component)
        requires
            old(self).wf(),
            old(self)@.counts[component.to_type()] >= 1,
            old(self)@.opacity >= component.opacity_value(),
        ensures
            final(self).wf(),
            final(self)@ == (CellView {
                counts: old(self)@.counts.insert(
                    component.to_type(),
                    old(self)@.counts[component.to_type()] - 1,
                ),
                opacity: old(self)@.opacity - component.opacity_value(),
                ..old(self)@
            }),
    {
        self.decrement_count(component.to_type());
        let ghost mid = self@;
        if let Component::Opacity(o) = component {
            self.opacity = self.opacity - *o as u64;
        }
        proof {
            assert(self@.counts =~= mid.counts);
            assert(self@.entities =~= mid.entities);
        }
    }

    /// Stamp the cell with the turn of the mutation it just observed.
    fn set_last_updated(&mut self, turn_count: u64)
        requires
            old(self).wf(),
        ensures
            final(self).wf(),
            final(self)@ == cv_stamp(old(self)@, turn_count),
    {
        self.last_updated = turn_count;
        proof {
            assert(self@.counts =~= old(self)@.counts);
            assert(self@.entities =~= old(self)@.entities);
        }
    }
}

/// The view of a freshly made cell.
pub open spec fn cv_empty() -> CellView {
    CellView {
        entities: Set::<EntityId>::empty(),
        counts: Map::new(|t: ComponentType| true, |t: ComponentType| 0int),
        opacity: 0,
        last_updated: 0,
    }
}

/// Attaching an entity stays within the machine bounds of a cell.
pub open spec fn attach_ok(c: CellView, id: EntityId, m: Map<ComponentType, Component>) -> bool {
    !c.entities.contains(id) ==> {
        &&& forall|t: ComponentType| m.contains_key(t) ==> c.counts[t] < usize::MAX
        &&& c.opacity + opacity_of(m) <= u64::MAX
    }
}

/// Detaching an entity never drives a cell's aggregates negative.
pub open spec fn detach_ok(c: CellView, id: EntityId, m: Map<ComponentType, Component>) -> bool {
    c.entities.contains(id) ==> {
        &&& forall|t: ComponentType| m.contains_key(t) ==> c.counts[t] >= 1
        &&& c.opacity >= opacity_of(m)
    }
}

/// Applying component changes stays within the machine bounds of a cell.
pub open spec fn changes_ok(
    c: CellView,
    m: Map<ComponentType, Component>,
    ch: Map<ComponentType, Component>,
) -> bool {
    &&& forall|t: ComponentType|
        ch.contains_key(t) && t != ComponentType::Position && !m.contains_key(t)
            ==> c.counts[t] < usize::MAX
    &&& (ch.contains_key(ComponentType::Opacity) ==> if m.contains_key(ComponentType::Opacity) {
        &&& c.opacity >= m[ComponentType::Opacity].opacity_value()
        &&& c.opacity - m[ComponentType::Opacity].opacity_value()
            + ch[ComponentType::Opacity].opacity_value() <= u64::MAX
    } else {
        c.opacity + ch[ComponentType::Opacity].opacity_value() <= u64::MAX
    })
}

/// Removing component discriminants never drives a cell's aggregates
/// negative.
pub open spec fn removes_ok(
    c: CellView,
    m: Map<ComponentType, Component>,
    ts: Seq<ComponentType>,
) -> bool {
    &&& forall|t: ComponentType|
        ts.contains(t) && m.contains_key(t) ==> c.counts[t] >= 1
    &&& (ts.contains(ComponentType::Opacity) ==> c.opacity >= opacity_of(m))
}

/// The grid index of a coordinate.
pub open spec fn grid_index(w: int, x: int, y: int) -> int {
    y * w + x
}

/// A coordinate is on a grid of the given dimensions.
pub open spec fn coord_in_bounds(w: int, h: int, x: int, y: int) -> bool {
    0 <= x < w && 0 <= y < h
}

/// Grid indices of in-bounds coordinates are themselves in bounds and
/// distinct coordinates get distinct indices.
pub proof fn lemma_grid_index(w: int, h: int, x1: int, y1: int, x2: int, y2: int)
    requires
        coord_in_bounds(w, h, x1, y1),
        coord_in_bounds(w, h, x2, y2),
    ensures
        0 <= grid_index(w, x1, y1) < w * h,
        grid_index(w, x1, y1) == grid_index(w, x2, y2) ==> x1 == x2 && y1 == y2,
{
    assert(0 <= y1 * w + x1 < w * h) by (nonlinear_arith)
        requires
            0 <= x1 < w,
            0 <= y1 < h,
    ;
    assert(y1 * w + x1 == y2 * w + x2 ==> x1 == x2 && y1 == y2) by (nonlinear_arith)
        requires
            0 <= x1 < w,
            0 <= y1 < h,
            0 <= x2 < w,
            0 <= y2 < h,
    ;
}

/// The grid after an entity with components `m` is added at its position.
/// An entity without a position never touches the grid.
pub open spec fn spec_sh_add_entity(
    g: Seq<CellView>,
    w: int,
    id: EntityId,
    m: Map<ComponentType, Component>,
    turn_count: u64,
) -> Seq<CellView> {
    match spec_position(m) {
        None => g,
        Some(p) => {
            let idx = grid_index(w, p.x as int, p.y as int);
            g.update(idx, cv_stamp(cv_attach(g[idx], id, m), turn_count))
        }
    }
}

/// Whether adding the entity is in bounds and within machine limits.
pub open spec fn sh_add_entity_ok(
    g: Seq<CellView>,
    w: int,
    h: int,
    id: EntityId,
    m: Map<ComponentType, Component>,
) -> bool {
    match spec_position(m) {
        None => true,
        Some(p) => coord_in_bounds(w, h, p.x as int, p.y as int) && attach_ok(
            g[grid_index(w, p.x as int, p.y as int)],
            id,
            m,
        ),
    }
}

/// The grid after an entity with components `m` is removed from its
/// position.
pub open spec fn spec_sh_remove_entity(
    g: Seq<CellView>,
    w: int,
    id: EntityId,
    m: Map<ComponentType, Component>,
    turn_count: u64,
) -> Seq<CellView> {
    match spec_position(m) {
        None => g,
        Some(p) => {
            let idx = grid_index(w, p.x as int, p.y as int);
            g.update(idx, cv_stamp(cv_detach(g[idx], id, m), turn_count))
        }
    }
}

/// Whether removing the entity is in bounds and within machine limits.
pub open spec fn sh_remove_entity_ok(
    g: Seq<CellView>,
    w: int,
    h: int,
    id: EntityId,
    m: Map<ComponentType, Component>,
) -> bool {
    match spec_position(m) {
        None => true,
        Some(p) => coord_in_bounds(w, h, p.x as int, p.y as int) && detach_ok(
            g[grid_index(w, p.x as int, p.y as int)],
            id,
            m,
        ),
    }
}

/// A 2D grid of cells, each aggregating the entities occupying that
/// coordinate, synchronized by diff replay.
pub struct SpatialHashMap {
    id: Option<LevelId>,
    width: usize,
    height: usize,
    cells: Vec<SpatialHashCell>,
}

impl SpatialHashMap {
    /// The grid's width.
    pub closed spec fn grid_width(&self) -> int {
        self.width as int
    }

    /// The grid's height.
    pub closed spec fn grid_height(&self) -> int {
        self.height as int
    }

    /// The level this grid indexes, once one is set.
    pub closed spec fn level_id(&self) -> Option<LevelId> {
        self.id
    }

    /// The cells' views, row-major.
    pub closed spec fn cells_seq(&self) -> Seq<CellView> {
        self.cells@.map_values(|c: SpatialHashCell| c@)
    }

    /// A coordinate is on this grid.
    pub open spec fn in_bounds(&self, x: int, y: int) -> bool {
        coord_in_bounds(self.grid_width(), self.grid_height(), x, y)
    }

    /// The view of the cell at an in-bounds coordinate.
    pub open spec fn cell_view(&self, x: int, y: int) -> CellView {
        self.cells_seq()[grid_index(self.grid_width(), x, y)]
    }

    /// Internal well-formedness: one cell per coordinate, all well-formed.
    pub closed spec fn wf(&self) -> bool {
        &&& self.cells@.len() == self.width * self.height
        &&& forall|i: int| 0 <= i < self.cells@.len() ==> (#[trigger] self.cells@[i]).wf()
    }

    /// A grid of empty cells.
    pub fn new(width: usize, height: usize) -> (r: SpatialHashMap)
        requires
            width * height <= usize::MAX,
        ensures
            r.wf(),
            r.grid_width() == width,
            r.grid_height() == height,
            r.level_id() is None,
            r.cells_seq().len() == width * height,
            forall|i: int| 0 <= i < r.cells_seq().len() ==> r.cells_seq()[i] == cv_empty(),
    {
        let n = width * height;
        let mut cells: Vec<SpatialHashCell> = Vec::new();
        let mut i: usize = 0;
        while i < n
            invariant
                i <= n,
                cells@.len() == i,
                forall|j: int| 0 <= j < i ==> (#[trigger] cells@[j]).wf() && cells@[j]@ == cv_empty(),
            decreases n - i,
        {
            let cell = SpatialHashCell::new();
            proof {
                assert(cell@ == cv_empty());
            }
            cells.push(cell);
            i = i + 1;
        }
        SpatialHashMap { id: None, width, height, cells }
    }

    /// Bind the grid to a level.
    pub fn set_id(&mut self, id: LevelId)
        requires
            old(self).wf(),
        ensures
            final(self).wf(),
            final(self).level_id() == Some(id),
            final(self).cells_seq() == old(self).cells_seq(),
            final(self).grid_width() == old(self).grid_width(),
            final(self).grid_height() == old(self).grid_height(),
    {
        self.id = Some(id);
    }

    /// The exec index of an in-bounds coordinate.
    fn cell_index(&self, x: usize, y: usize) -> (r: usize)
        requires
            self.wf(),
            x < self.width,
            y < self.height,
        ensures
            r == grid_index(self.grid_width(), x as int, y as int),
            r < self.cells@.len(),
    {
        let n = self.cells.len();
        proof {
            lemma_grid_index(
                self.grid_width(),
                self.grid_height(),
                x as int,
                y as int,
                x as int,
                y as int,
            );
            assert(y * self.grid_width() + x < n);
        }
        y * self.width + x
    }

    /// The cell at a coordinate, or `None` when the coordinate is off the
    /// grid. Absence is the routine answer for out-of-bounds queries.
    pub fn get(&self, coord: (isize, isize)) -> (r: Option<&SpatialHashCell>)
        requires
            self.wf(),
        ensures
            match r {
                Some(c) => self.in_bounds(coord.0 as int, coord.1 as int) && c.wf() && c@
                    == self.cell_view(coord.0 as int, coord.1 as int),
                None => !self.in_bounds(coord.0 as int, coord.1 as int),
            },
    {
        let (x, y) = coord;
        if x >= 0 && y >= 0 && (x as usize) < self.width && (y as usize) < self.height {
            let idx = self.cell_index(x as usize, y as usize);
            Some(&self.cells[idx])
        } else {
            None
        }
    }

    /// The cell at a coordinate the caller has already validated: calling
    /// this out of bounds is a contract violation, not a recoverable
    /// condition.
    pub fn get_unsafe(&self, coord: (isize, isize)) -> (r: &SpatialHashCell)
        requires
            self.wf(),
            self.in_bounds(coord.0 as int, coord.1 as int),
        ensures
            r.wf(),
            r@ == self.cell_view(coord.0 as int, coord.1 as int),
    {
        let (x, y) = coord;
        let idx = self.cell_index(x as usize, y as usize);
        &self.cells[idx]
    }
}

/// The entity's position among a snapshot of its components, if any.
fn position_of_pairs(pairs: &Vec<(ComponentType, Component)>) -> (r: Option<Vector2>)
    requires
        distinct_keys(pairs@),
        forall|i: int| 0 <= i < pairs@.len() ==> (#[trigger] pairs@[i]).0 == pairs@[i].1.to_type(),
    ensures
        r == spec_position(assoc_map(pairs@)),
{
    let mut i: usize = 0;
    while i < pairs.len()
        invariant
            i <= pairs@.len(),
            distinct_keys(pairs@),
            forall|j: int| 0 <= j < pairs@.len() ==> (#[trigger] pairs@[j]).0 == pairs@[j].1.to_type(),
            forall|j: int| 0 <= j < i ==> (#[trigger] pairs@[j]).0 != ComponentType::Position,
        decreases pairs@.len() - i,
    {
        if pairs[i].0 == ComponentType::Position {
            proof {
                lemma_assoc_index(pairs@, i as int);
            }
            return pairs[i].1.as_position();
        }
        i = i + 1;
    }
    proof {
        lemma_assoc_absent(pairs@, ComponentType::Position);
    }
    None
}

impl SpatialHashMap {
    /// Record a newly created entity: if it has a resolved position, its id
    /// and every component contribution it carries enter that cell, which is
    /// stamped with the turn.
    pub fn add_entity(&mut self, id: EntityId, pairs: &Vec<(ComponentType, Component)>, turn_count: u64)
        requires
            old(self).wf(),
            distinct_keys(pairs@),
            forall|i: int| 0 <= i < pairs@.len() ==> (#[trigger] pairs@[i]).0 == pairs@[i].1.to_type(),
            sh_add_entity_ok(
                old(self).cells_seq(),
                old(self).grid_width(),
                old(self).grid_height(),
                id,
                assoc_map(pairs@),
            ),
        ensures
            final(self).wf(),
            final(self).grid_width() == old(self).grid_width(),
            final(self).grid_height() == old(self).grid_height(),
            final(self).level_id() == old(self).level_id(),
            final(self).cells_seq() == spec_sh_add_entity(
                old(self).cells_seq(),
                old(self).grid_width(),
                id,
                assoc_map(pairs@),
                turn_count,
            ),
    {
        let ghost m = assoc_map(pairs@);
        match position_of_pairs(pairs) {
            None => {}
            Some(v) => {
                proof {
                    lemma_grid_index(
                        self.grid_width(),
                        self.grid_height(),
                        v.x as int,
                        v.y as int,
                        v.x as int,
                        v.y as int,
                    );
                }
                let idx = self.cell_index(v.x as usize, v.y as usize);
                let mut cell = self.cells.remove(idx);
                cell.add_entity(id, pairs);
                cell.set_last_updated(turn_count);
                let ghost cv = cell@;
                self.cells.insert(idx, cell);
                proof {
                    assert(self.cells@ =~= old(self).cells@.update(idx as int, cell));
                    assert(self.cells_seq() =~= old(self).cells_seq().update(idx as int, cv));
                }
            }
        }
    }

    /// Record a destroyed entity: if it had a resolved position, its id and
    /// every component contribution it carried leave that cell, which is
    /// stamped with the turn.
    pub fn remove_entity(&mut self, id: EntityId, pairs: &Vec<(ComponentType, Component)>, turn_count: u64)
        requires
            old(self).wf(),
            distinct_keys(pairs@),
            forall|i: int| 0 <= i < pairs@.len() ==> (#[trigger] pairs@[i]).0 == pairs@[i].1.to_type(),
            sh_remove_entity_ok(
                old(self).cells_seq(),
                old(self).grid_width(),
                old(self).grid_height(),
                id,
                assoc_map(pairs@),
            ),
        ensures
            final(self).wf(),
            final(self).grid_width() == old(self).grid_width(),
            final(self).grid_height() == old(self).grid_height(),
            final(self).level_id() == old(self).level_id(),
            final(self).cells_seq() == spec_sh_remove_entity(
                old(self).cells_seq(),
                old(self).grid_width(),
                id,
                assoc_map(pairs@),
                turn_count,
            ),
    {
        let ghost m = assoc_map(pairs@);
        match position_of_pairs(pairs) {
            None => {}
            Some(v) => {
                proof {
                    lemma_grid_index(
                        self.grid_width(),
                        self.grid_height(),
                        v.x as int,
                        v.y as int,
                        v.x as int,
                        v.y as int,
                    );
                }
                let idx = self.cell_index(v.x as usize, v.y as usize);
                let mut cell = self.cells.remove(idx);
                cell.remove_entity(id, pairs);
                cell.set_last_updated(turn_count);
                let ghost cv = cell@;
                self.cells.insert(idx, cell);
                proof {
                    assert(self.cells@ =~= old(self).cells@.update(idx as int, cell));
                    assert(self.cells_seq() =~= old(self).cells_seq().update(idx as int, cv));
                }
            }
        }
    }
}

/// The grid after an entity's added/overwritten components are replayed.
/// A new position is a move: the entity detaches from its old cell and
/// attaches, with all its current contributions, to the new one before the
/// remaining component deltas are applied there.
pub open spec fn spec_sh_add_components(
    g: Seq<CellView>,
    w: int,
    id: EntityId,
    m: Map<ComponentType, Component>,
    ch: Map<ComponentType, Component>,
    turn_count: u64,
) -> Seq<CellView> {
    match spec_position(ch) {
        Some(np) => {
            let npidx = grid_index(w, np.x as int, np.y as int);
            let g1 = match spec_position(m) {
                Some(op) => {
                    let opidx = grid_index(w, op.x as int, op.y as int);
                    g.update(opidx, cv_stamp(cv_detach(g[opidx], id, m), turn_count))
                }
                None => g,
            };
            let g2 = g1.update(npidx, cv_attach(g1[npidx], id, m));
            g2.update(npidx, cv_stamp(cv_changes(g2[npidx], m, ch), turn_count))
        }
        None => match spec_position(m) {
            Some(cp) => {
                let cpidx = grid_index(w, cp.x as int, cp.y as int);
                g.update(cpidx, cv_stamp(cv_changes(g[cpidx], m, ch), turn_count))
            }
            None => g,
        },
    }
}

/// Whether replaying an entity's component additions is in bounds and
/// within machine limits at every step.
pub open spec fn sh_add_components_ok(
    g: Seq<CellView>,
    w: int,
    h: int,
    id: EntityId,
    m: Map<ComponentType, Component>,
    ch: Map<ComponentType, Component>,
    turn_count: u64,
) -> bool {
    match spec_position(ch) {
        Some(np) => {
            let npidx = grid_index(w, np.x as int, np.y as int);
            let g1 = match spec_position(m) {
                Some(op) => {
                    let opidx = grid_index(w, op.x as int, op.y as int);
                    g.update(opidx, cv_stamp(cv_detach(g[opidx], id, m), turn_count))
                }
                None => g,
            };
            &&& coord_in_bounds(w, h, np.x as int, np.y as int)
            &&& match spec_position(m) {
                Some(op) => coord_in_bounds(w, h, op.x as int, op.y as int) && detach_ok(
                    g[grid_index(w, op.x as int, op.y as int)],
                    id,
                    m,
                ),
                None => true,
            }
            &&& attach_ok(g1[npidx], id, m)
            &&& changes_ok(cv_attach(g1[npidx], id, m), m, ch)
        }
        None => match spec_position(m) {
            Some(cp) => coord_in_bounds(w, h, cp.x as int, cp.y as int) && changes_ok(
                g[grid_index(w, cp.x as int, cp.y as int)],
                m,
                ch,
            ),
            None => true,
        },
    }
}

/// The grid after an entity's removed component discriminants are replayed.
/// Removing the position detaches the entity from the spatial hash
/// entirely; otherwise each removed discriminant's contribution leaves the
/// entity's cell.
pub open spec fn spec_sh_remove_components(
    g: Seq<CellView>,
    w: int,
    id: EntityId,
    m: Map<ComponentType, Component>,
    ts: Seq<ComponentType>,
    turn_count: u64,
) -> Seq<CellView> {
    match spec_position(m) {
        None => g,
        Some(cp) => {
            let idx = grid_index(w, cp.x as int, cp.y as int);
            if ts.contains(ComponentType::Position) {
                g.update(idx, cv_stamp(cv_detach(g[idx], id, m), turn_count))
            } else {
                g.update(idx, cv_stamp(cv_removes(g[idx], m, ts), turn_count))
            }
        }
    }
}

/// Whether replaying an entity's component removals is in bounds and
/// within machine limits.
pub open spec fn sh_remove_components_ok(
    g: Seq<CellView>,
    w: int,
    h: int,
    id: EntityId,
    m: Map<ComponentType, Component>,
    ts: Seq<ComponentType>,
) -> bool {
    match spec_position(m) {
        None => true,
        Some(cp) => {
            let idx = grid_index(w, cp.x as int, cp.y as int);
            &&& coord_in_bounds(w, h, cp.x as int, cp.y as int)
            &&& if ts.contains(ComponentType::Position) {
                detach_ok(g[idx], id, m)
            } else {
                removes_ok(g[idx], m, ts)
            }
        }
    }
}

/// The component of discriminant `t` in a snapshot of pairs, if present.
fn get_in_pairs<'a>(pairs: &'a Vec<(ComponentType, Component)>, t: ComponentType) -> (r: Option<
    &'a Component,
>)
    requires
        distinct_keys(pairs@),
    ensures
        match r {
            Some(c) => assoc_map(pairs@).contains_key(t) && *c == assoc_map(pairs@)[t],
            None => !assoc_map(pairs@).contains_key(t),
        },
{
    let mut i: usize = 0;
    while i < pairs.len()
        invariant
            i <= pairs@.len(),
            distinct_keys(pairs@),
            forall|j: int| 0 <= j < i ==> (#[trigger] pairs@[j]).0 != t,
        decreases pairs@.len() - i,
    {
        if pairs[i].0 == t {
            proof {
                lemma_assoc_index(pairs@, i as int);
            }
            return Some(&pairs[i].1);
        }
        i = i + 1;
    }
    proof {
        lemma_assoc_absent(pairs@, t);
    }
    None
}

impl SpatialHashMap {
    /// Apply the non-position component changes `ch` to the cell at `tidx`,
    /// for an occupant currently carrying `m`, and stamp it.
    fn apply_changes_at(
        &mut self,
        tidx: usize,
        entity_pairs: &Vec<(ComponentType, Component)>,
        changes: &crate::update::AddedComponents,
        turn_count: u64,
    )
        requires
            old(self).wf(),
            tidx < old(self).cells@.len(),
            distinct_keys(entity_pairs@),
            forall|i: int|
                0 <= i < entity_pairs@.len() ==> (#[trigger] entity_pairs@[i]).0
                    == entity_pairs@[i].1.to_type(),
            changes.wf(),
            changes_ok(old(self).cells_seq()[tidx as int], assoc_map(entity_pairs@), changes@),
        ensures
            final(self).wf(),
            final(self).grid_width() == old(self).grid_width(),
            final(self).grid_height() == old(self).grid_height(),
            final(self).level_id() == old(self).level_id(),
            final(self).cells_seq() == old(self).cells_seq().update(
                tidx as int,
                cv_stamp(
                    cv_changes(
                        old(self).cells_seq()[tidx as int],
                        assoc_map(entity_pairs@),
                        changes@,
                    ),
                    turn_count,
                ),
            ),
    {
        let ghost m = assoc_map(entity_pairs@);
        let ghost ch = changes@;
        let mut cell = self.cells.remove(tidx);
        let ghost base = cell@;
        let pairs_ch = changes.pairs();
        let ghost cs = pairs_ch@;
        proof {
            assert(cs.subrange(0, 0).len() == 0);
            assert(cell@.counts =~= cv_changes(base, m, assoc_map(cs.subrange(0, 0))).counts);
            assert(cell@ == cv_changes(base, m, assoc_map(cs.subrange(0, 0))));
        }
        let mut k: usize = 0;
        while k < pairs_ch.len()
            invariant
                cell.wf(),
                k <= cs.len(),
                pairs_ch@ == cs,
                distinct_keys(cs),
                assoc_map(cs) == ch,
                forall|a: int| 0 <= a < cs.len() ==> (#[trigger] cs[a]).0 == cs[a].1.to_type(),
                distinct_keys(entity_pairs@),
                forall|i: int|
                    0 <= i < entity_pairs@.len() ==> (#[trigger] entity_pairs@[i]).0
                        == entity_pairs@[i].1.to_type(),
                m == assoc_map(entity_pairs@),
                changes_ok(base, m, ch),
                cell@ == cv_changes(base, m, assoc_map(cs.subrange(0, k as int))),
            decreases cs.len() - k,
        {
            let (t, new_c) = pairs_ch[k];
            let ghost prefix = cs.subrange(0, k as int);
            let ghost prefix1 = cs.subrange(0, k + 1 as int);
            proof {
                assert(prefix1 =~= prefix.push(cs[k as int]));
                assert(forall|a: int| 0 <= a < k ==> (#[trigger] prefix[a]).0 != cs[k as int].0);
                lemma_assoc_push(prefix, cs[k as int].0, cs[k as int].1);
                lemma_assoc_absent(prefix, t);
                lemma_assoc_index(cs, k as int);
                assert(ch.contains_key(t) && ch[t] == new_c);
            }
            if t == ComponentType::Position {
                proof {
                    assert(assoc_map(prefix1) =~= assoc_map(prefix).insert(t, new_c));
                    assert(cv_changes(base, m, assoc_map(prefix1)).counts =~= cv_changes(
                        base,
                        m,
                        assoc_map(prefix),
                    ).counts);
                    assert(delta_opacity(m, assoc_map(prefix1)) == delta_opacity(
                        m,
                        assoc_map(prefix),
                    ));
                    assert(cell@ == cv_changes(base, m, assoc_map(prefix1)));
                }
            } else {
                proof {
                    if t == ComponentType::Opacity {
                        assert(!assoc_map(prefix).dom().contains(ComponentType::Opacity));
                        assert(delta_opacity(m, assoc_map(prefix)) == 0);
                        assert(cell@.opacity == base.opacity);
                    }
                }
                match get_in_pairs(entity_pairs, t) {
                    Some(old_c) => {
                        proof {
                            assert(m.contains_key(t) && m[t] == *old_c);
                            assert(old_c.to_type() == t) by {
                                crate::assoc::lemma_assoc_dom(entity_pairs@, t);
                                let a = choose|a: int|
                                    0 <= a < entity_pairs@.len() && (#[trigger] entity_pairs@[
                                    a]).0 == t;
                                lemma_assoc_index(entity_pairs@, a);
                            }
                            assert(new_c.to_type() == t);
                            if t == ComponentType::Opacity {
                                assert(old_c is Opacity && new_c is Opacity);
                                assert(cell@.opacity >= old_c.opacity_value());
                            }
                        }
                        cell.change_component(old_c, &new_c);
                        proof {
                            if t == ComponentType::Opacity {
                                assert(delta_opacity(m, assoc_map(prefix1)) == new_c.opacity_value()
                                    - old_c.opacity_value());
                            } else {
                                assert(!(old_c is Opacity));
                                assert(delta_opacity(m, assoc_map(prefix1)) == delta_opacity(
                                    m,
                                    assoc_map(prefix),
                                ));
                            }
                            assert(cell@.counts =~= cv_changes(base, m, assoc_map(prefix1)).counts);
                            assert(cell@ == cv_changes(base, m, assoc_map(prefix1)));
                        }
                    }
                    None => {
                        proof {
                            assert(!m.contains_key(t));
                            assert(new_c.to_type() == t);
                            assert(cell@.counts[t] == base.counts[t]);
                            if t == ComponentType::Opacity {
                                assert(new_c is Opacity);
                                assert(cell@.opacity + new_c.opacity_value() <= u64::MAX);
                            } else {
                                assert(new_c.opacity_value() == 0);
                            }
                        }
                        cell.add_component(&new_c);
                        proof {
                            if t == ComponentType::Opacity {
                                assert(delta_opacity(m, assoc_map(prefix1))
                                    == new_c.opacity_value());
                            } else {
                                assert(delta_opacity(m, assoc_map(prefix1)) == delta_opacity(
                                    m,
                                    assoc_map(prefix),
                                ));
                            }
                            assert(cell@.counts =~= cv_changes(base, m, assoc_map(prefix1)).counts);
                            assert(cell@ == cv_changes(base, m, assoc_map(prefix1)));
                        }
                    }
                }
            }
            k = k + 1;
        }
        proof {
            assert(cs.subrange(0, cs.len() as int) =~= cs);
        }
        cell.set_last_updated(turn_count);
        let ghost cv = cell@;
        self.cells.insert(tidx, cell);
        proof {
            assert(self.cells@ =~= old(self).cells@.update(tidx as int, cell));
            assert(self.cells_seq() =~= old(self).cells_seq().update(tidx as int, cv));
        }
    }

    /// Replay one entity's added or overwritten components. A new position
    /// is handled first, as a move, because it decides which cell receives
    /// the remaining deltas.
    pub fn add_components(
        &mut self,
        id: EntityId,
        entity_pairs: &Vec<(ComponentType, Component)>,
        changes: &crate::update::AddedComponents,
        turn_count: u64,
    )
        requires
            old(self).wf(),
            distinct_keys(entity_pairs@),
            forall|i: int|
                0 <= i < entity_pairs@.len() ==> (#[trigger] entity_pairs@[i]).0
                    == entity_pairs@[i].1.to_type(),
            changes.wf(),
            sh_add_components_ok(
                old(self).cells_seq(),
                old(self).grid_width(),
                old(self).grid_height(),
                id,
                assoc_map(entity_pairs@),
                changes@,
                turn_count,
            ),
        ensures
            final(self).wf(),
            final(self).grid_width() == old(self).grid_width(),
            final(self).grid_height() == old(self).grid_height(),
            final(self).level_id() == old(self).level_id(),
            final(self).cells_seq() == spec_sh_add_components(
                old(self).cells_seq(),
                old(self).grid_width(),
                id,
                assoc_map(entity_pairs@),
                changes@,
                turn_count,
            ),
    {
        let ghost m = assoc_map(entity_pairs@);
        let ghost ch = changes@;
        let ghost g0 = self.cells_seq();
        let ghost w = self.grid_width();
        let new_pos = changes.position();
        let cur_pos = position_of_pairs(entity_pairs);
        match new_pos {
            Some(np) => {
                if let Some(op) = cur_pos {
                    proof {
                        lemma_grid_index(
                            w,
                            self.grid_height(),
                            op.x as int,
                            op.y as int,
                            op.x as int,
                            op.y as int,
                        );
                    }
                    let opidx = self.cell_index(op.x as usize, op.y as usize);
                    let mut cell = self.cells.remove(opidx);
                    cell.remove_entity(id, entity_pairs);
                    cell.set_last_updated(turn_count);
                    let ghost cv = cell@;
                    self.cells.insert(opidx, cell);
                    proof {
                        assert(self.cells@ =~= old(self).cells@.update(opidx as int, cell));
                        assert(self.cells_seq() =~= g0.update(opidx as int, cv));
                    }
                }
                let ghost g1 = self.cells_seq();
                proof {
                    assert(g1 =~= (match spec_position(m) {
                        Some(op) => g0.update(
                            grid_index(w, op.x as int, op.y as int),
                            cv_stamp(
                                cv_detach(g0[grid_index(w, op.x as int, op.y as int)], id, m),
                                turn_count,
                            ),
                        ),
                        None => g0,
                    }));
                }
                let npidx = self.cell_index(np.x as usize, np.y as usize);
                let ghost mid_cells = self.cells@;
                let mut cell = self.cells.remove(npidx);
                cell.add_entity(id, entity_pairs);
                let ghost cv = cell@;
                self.cells.insert(npidx, cell);
                proof {
                    assert(self.cells@ =~= mid_cells.update(npidx as int, cell));
                    assert(self.cells_seq() =~= g1.update(npidx as int, cv));
                }
                self.apply_changes_at(npidx, entity_pairs, changes, turn_count);
                proof {
                    assert(self.cells_seq() =~= spec_sh_add_components(
                        g0,
                        w,
                        id,
                        m,
                        ch,
                        turn_count,
                    ));
                }
            }
            None => {
                match cur_pos {
                    Some(cp) => {
                        proof {
                            lemma_grid_index(
                                w,
                                self.grid_height(),
                                cp.x as int,
                                cp.y as int,
                                cp.x as int,
                                cp.y as int,
                            );
                        }
                        let cpidx = self.cell_index(cp.x as usize, cp.y as usize);
                        self.apply_changes_at(cpidx, entity_pairs, changes, turn_count);
                    }
                    None => {}
                }
            }
        }
    }

    /// Replay one entity's removed component discriminants. Removing the
    /// position detaches the entity from the spatial hash; otherwise each
    /// removed discriminant's contribution leaves the entity's cell.
    pub fn remove_components(
        &mut self,
        id: EntityId,
        entity_pairs: &Vec<(ComponentType, Component)>,
        component_types: &Vec<ComponentType>,
        turn_count: u64,
    )
        requires
            old(self).wf(),
            distinct_keys(entity_pairs@),
            forall|i: int|
                0 <= i < entity_pairs@.len() ==> (#[trigger] entity_pairs@[i]).0
                    == entity_pairs@[i].1.to_type(),
            component_types@.no_duplicates(),
            sh_remove_components_ok(
                old(self).cells_seq(),
                old(self).grid_width(),
                old(self).grid_height(),
                id,
                assoc_map(entity_pairs@),
                component_types@,
            ),
        ensures
            final(self).wf(),
            final(self).grid_width() == old(self).grid_width(),
            final(self).grid_height() == old(self).grid_height(),
            final(self).level_id() == old(self).level_id(),
            final(self).cells_seq() == spec_sh_remove_components(
                old(self).cells_seq(),
                old(self).grid_width(),
                id,
                assoc_map(entity_pairs@),
                component_types@,
                turn_count,
            ),
    {
        let ghost m = assoc_map(entity_pairs@);
        let ghost ts = component_types@;
        let cur_pos = position_of_pairs(entity_pairs);
        let cp = match cur_pos {
            Some(cp) => cp,
            None => {
                return;
            }
        };
        proof {
            lemma_grid_index(
                self.grid_width(),
                self.grid_height(),
                cp.x as int,
                cp.y as int,
                cp.x as int,
                cp.y as int,
            );
        }
        let idx = self.cell_index(cp.x as usize, cp.y as usize);
        let mut has_position = false;
        let mut k: usize = 0;
        while k < component_types.len()
            invariant
                k <= ts.len(),
                component_types@ == ts,
                has_position == ts.subrange(0, k as int).contains(ComponentType::Position),
            decreases ts.len() - k,
        {
            let ghost prefix = ts.subrange(0, k as int);
            let ghost prefix1 = ts.subrange(0, k + 1 as int);
            proof {
                assert(prefix1 =~= prefix.push(ts[k as int]));
                crate::assoc::lemma_push_contains(prefix, ts[k as int]);
            }
            if component_types[k] == ComponentType::Position {
                has_position = true;
            }
            k = k + 1;
        }
        proof {
            assert(ts.subrange(0, ts.len() as int) =~= ts);
            assert(has_position == ts.contains(ComponentType::Position));
        }
        let mut cell = self.cells.remove(idx);
        let ghost base = cell@;
        if has_position {
            cell.remove_entity(id, entity_pairs);
        } else {
            proof {
                assert(ts.subrange(0, 0).len() == 0);
                assert(cell@.counts =~= cv_removes(base, m, ts.subrange(0, 0)).counts);
                assert(!ts.subrange(0, 0).contains(ComponentType::Opacity));
                assert(cell@ == cv_removes(base, m, ts.subrange(0, 0)));
            }
            let mut k: usize = 0;
            while k < component_types.len()
                invariant
                    cell.wf(),
                    k <= ts.len(),
                    component_types@ == ts,
                    ts.no_duplicates(),
                    !ts.contains(ComponentType::Position),
                    distinct_keys(entity_pairs@),
                    forall|i: int|
                        0 <= i < entity_pairs@.len() ==> (#[trigger] entity_pairs@[i]).0
                            == entity_pairs@[i].1.to_type(),
                    m == assoc_map(entity_pairs@),
                    removes_ok(base, m, ts),
                    cell@ == cv_removes(base, m, ts.subrange(0, k as int)),
                decreases ts.len() - k,
            {
                let t = component_types[k];
                let ghost prefix = ts.subrange(0, k as int);
                let ghost prefix1 = ts.subrange(0, k + 1 as int);
                proof {
                    assert(prefix1 =~= prefix.push(t));
                    crate::assoc::lemma_push_contains(prefix, t);
                    assert(!prefix.contains(t)) by {
                        if prefix.contains(t) {
                            let a = choose|a: int| 0 <= a < k && #[trigger] prefix[a] == t;
                            assert(ts[a] == t && ts[k as int] == t);
                        }
                    }
                    assert(ts.contains(ts[k as int]));
                    if t == ComponentType::Opacity {
                        assert(!prefix.contains(ComponentType::Opacity));
                        assert(cell@.opacity == base.opacity);
                    }
                }
                match get_in_pairs(entity_pairs, t) {
                    Some(c) => {
                        proof {
                            assert(m.contains_key(t) && m[t] == *c);
                            assert(c.to_type() == t) by {
                                crate::assoc::lemma_assoc_dom(entity_pairs@, t);
                                let a = choose|a: int|
                                    0 <= a < entity_pairs@.len() && (#[trigger] entity_pairs@[
                                    a]).0 == t;
                                lemma_assoc_index(entity_pairs@, a);
                            }
                            assert(cell@.counts[t] == base.counts[t]);
                            if t == ComponentType::Opacity {
                                assert(c.opacity_value() == opacity_of(m));
                                assert(cell@.opacity >= c.opacity_value());
                            } else {
                                assert(c.opacity_value() == 0);
                            }
                        }
                        cell.remove_component(c);
                        proof {
                            assert(cell@.counts =~= cv_removes(base, m, prefix1).counts);
                            assert(cell@ == cv_removes(base, m, prefix1));
                        }
                    }
                    None => {
                        proof {
                            assert(!m.contains_key(t));
                            assert(cell@.counts =~= cv_removes(base, m, prefix1).counts);
                            if t == ComponentType::Opacity {
                                assert(opacity_of(m) == 0);
                            }
                            assert(cell@ == cv_removes(base, m, prefix1));
                        }
                    }
                }
                k = k + 1;
            }
            proof {
                assert(ts.subrange(0, ts.len() as int) =~= ts);
            }
        }
        cell.set_last_updated(turn_count);
        let ghost cv = cell@;
        self.cells.insert(idx, cell);
        proof {
            assert(self.cells@ =~= old(self).cells@.update(idx as int, cell));
            assert(self.cells_seq() =~= old(self).cells_seq().update(idx as int, cv));
        }
    }
}

/// The grid after replaying each newly created entity, in order.
pub open spec fn spec_update_added(
    g: Seq<CellView>,
    w: int,
    s: Seq<(EntityId, Map<ComponentType, Component>)>,
    turn_count: u64,
) -> Seq<CellView>
    decreases s.len(),
{
    if s.len() == 0 {
        g
    } else {
        spec_sh_add_entity(spec_update_added(g, w, s.drop_last(), turn_count), w, s.last().0, s.last().1, turn_count)
    }
}

/// Every step of replaying the created entities is within bounds and limits.
pub open spec fn update_added_ok(
    g: Seq<CellView>,
    w: int,
    h: int,
    s: Seq<(EntityId, Map<ComponentType, Component>)>,
    turn_count: u64,
) -> bool
    decreases s.len(),
{
    if s.len() == 0 {
        true
    } else {
        &&& update_added_ok(g, w, h, s.drop_last(), turn_count)
        &&& sh_add_entity_ok(
            spec_update_added(g, w, s.drop_last(), turn_count),
            w,
            h,
            s.last().0,
            s.last().1,
        )
    }
}

/// The grid after replaying each destroyed entity, looked up in the
/// pre-diff store, in order.
pub open spec fn spec_update_removed(
    g: Seq<CellView>,
    w: int,
    s: Seq<EntityId>,
    c: Map<EntityId, Map<ComponentType, Component>>,
    turn_count: u64,
) -> Seq<CellView>
    decreases s.len(),
{
    if s.len() == 0 {
        g
    } else {
        spec_sh_remove_entity(
            spec_update_removed(g, w, s.drop_last(), c, turn_count),
            w,
            s.last(),
            c[s.last()],
            turn_count,
        )
    }
}

/// Every step of replaying the destroyed entities is live, in bounds and
/// within limits.
pub open spec fn update_removed_ok(
    g: Seq<CellView>,
    w: int,
    h: int,
    s: Seq<EntityId>,
    c: Map<EntityId, Map<ComponentType, Component>>,
    turn_count: u64,
) -> bool
    decreases s.len(),
{
    if s.len() == 0 {
        true
    } else {
        &&& update_removed_ok(g, w, h, s.drop_last(), c, turn_count)
        &&& c.contains_key(s.last())
        &&& sh_remove_entity_ok(
            spec_update_removed(g, w, s.drop_last(), c, turn_count),
            w,
            h,
            s.last(),
            c[s.last()],
        )
    }
}

/// The grid after replaying each entity's component additions, in order.
pub open spec fn spec_update_comp_added(
    g: Seq<CellView>,
    w: int,
    s: Seq<(EntityId, Map<ComponentType, Component>)>,
    c: Map<EntityId, Map<ComponentType, Component>>,
    turn_count: u64,
) -> Seq<CellView>
    decreases s.len(),
{
    if s.len() == 0 {
        g
    } else {
        spec_sh_add_components(
            spec_update_comp_added(g, w, s.drop_last(), c, turn_count),
            w,
            s.last().0,
            c[s.last().0],
            s.last().1,
            turn_count,
        )
    }
}

/// Every step of replaying component additions is live, in bounds and
/// within limits.
pub open spec fn update_comp_added_ok(
    g: Seq<CellView>,
    w: int,
    h: int,
    s: Seq<(EntityId, Map<ComponentType, Component>)>,
    c: Map<EntityId, Map<ComponentType, Component>>,
    turn_count: u64,
) -> bool
    decreases s.len(),
{
    if s.len() == 0 {
        true
    } else {
        &&& update_comp_added_ok(g, w, h, s.drop_last(), c, turn_count)
        &&& c.contains_key(s.last().0)
        &&& sh_add_components_ok(
            spec_update_comp_added(g, w, s.drop_last(), c, turn_count),
            w,
            h,
            s.last().0,
            c[s.last().0],
            s.last().1,
            turn_count,
        )
    }
}

/// The grid after replaying each entity's component removals, in order.
pub open spec fn spec_update_comp_removed(
    g: Seq<CellView>,
    w: int,
    s: Seq<(EntityId, Seq<ComponentType>)>,
    c: Map<EntityId, Map<ComponentType, Component>>,
    turn_count: u64,
) -> Seq<CellView>
    decreases s.len(),
{
    if s.len() == 0 {
        g
    } else {
        spec_sh_remove_components(
            spec_update_comp_removed(g, w, s.drop_last(), c, turn_count),
            w,
            s.last().0,
            c[s.last().0],
            s.last().1,
            turn_count,
        )
    }
}

/// Every step of replaying component removals is live, in bounds and
/// within limits.
pub open spec fn update_comp_removed_ok(
    g: Seq<CellView>,
    w: int,
    h: int,
    s: Seq<(EntityId, Seq<ComponentType>)>,
    c: Map<EntityId, Map<ComponentType, Component>>,
    turn_count: u64,
) -> bool
    decreases s.len(),
{
    if s.len() == 0 {
        true
    } else {
        &&& update_comp_removed_ok(g, w, h, s.drop_last(), c, turn_count)
        &&& c.contains_key(s.last().0)
        &&& sh_remove_components_ok(
            spec_update_comp_removed(g, w, s.drop_last(), c, turn_count),
            w,
            h,
            s.last().0,
            c[s.last().0],
            s.last().1,
        )
    }
}

/// What replaying a whole diff does to the grid: entity additions, then
/// entity removals, then per-entity component additions, then per-entity
/// component removals, position moves resolved first within each addition.
pub open spec fn spec_update(
    g: Seq<CellView>,
    w: int,
    summary: crate::update::UpdateSummary,
    c: Map<EntityId, Map<ComponentType, Component>>,
    turn_count: u64,
) -> Seq<CellView> {
    spec_update_comp_removed(
        spec_update_comp_added(
            spec_update_removed(
                spec_update_added(g, w, summary.added_seq(), turn_count),
                w,
                summary.removed_seq(),
                c,
                turn_count,
            ),
            w,
            summary.comp_added_seq(),
            c,
            turn_count,
        ),
        w,
        summary.comp_removed_seq(),
        c,
        turn_count,
    )
}

/// Every step of replaying a whole diff is live, in bounds and within
/// machine limits. Replaying a diff that does not satisfy this is a
/// programming error.
pub open spec fn update_ok(
    g: Seq<CellView>,
    w: int,
    h: int,
    summary: crate::update::UpdateSummary,
    c: Map<EntityId, Map<ComponentType, Component>>,
    turn_count: u64,
) -> bool {
    let g1 = spec_update_added(g, w, summary.added_seq(), turn_count);
    let g2 = spec_update_removed(g1, w, summary.removed_seq(), c, turn_count);
    let g3 = spec_update_comp_added(g2, w, summary.comp_added_seq(), c, turn_count);
    &&& update_added_ok(g, w, h, summary.added_seq(), turn_count)
    &&& update_removed_ok(g1, w, h, summary.removed_seq(), c, turn_count)
    &&& update_comp_added_ok(g2, w, h, summary.comp_added_seq(), c, turn_count)
    &&& update_comp_removed_ok(g3, w, h, summary.comp_removed_seq(), c, turn_count)
}

/// An ok-chain holds of every prefix of its sequence.
proof fn lemma_update_added_ok_prefix(
    g: Seq<CellView>,
    w: int,
    h: int,
    s: Seq<(EntityId, Map<ComponentType, Component>)>,
    turn_count: u64,
    k: int,
)
    requires
        update_added_ok(g, w, h, s, turn_count),
        0 <= k <= s.len(),
    ensures
        update_added_ok(g, w, h, s.subrange(0, k), turn_count),
    decreases s.len(),
{
    if k == s.len() {
        assert(s.subrange(0, k) =~= s);
    } else {
        assert(s.drop_last() =~= s.subrange(0, s.len() - 1));
        lemma_update_added_ok_prefix(g, w, h, s.drop_last(), turn_count, k);
        assert(s.drop_last().subrange(0, k) =~= s.subrange(0, k));
    }
}

/// An ok-chain holds of every prefix of its sequence.
proof fn lemma_update_removed_ok_prefix(
    g: Seq<CellView>,
    w: int,
    h: int,
    s: Seq<EntityId>,
    c: Map<EntityId, Map<ComponentType, Component>>,
    turn_count: u64,
    k: int,
)
    requires
        update_removed_ok(g, w, h, s, c, turn_count),
        0 <= k <= s.len(),
    ensures
        update_removed_ok(g, w, h, s.subrange(0, k), c, turn_count),
    decreases s.len(),
{
    if k == s.len() {
        assert(s.subrange(0, k) =~= s);
    } else {
        assert(s.drop_last() =~= s.subrange(0, s.len() - 1));
        lemma_update_removed_ok_prefix(g, w, h, s.drop_last(), c, turn_count, k);
        assert(s.drop_last().subrange(0, k) =~= s.subrange(0, k));
    }
}

/// An ok-chain holds of every prefix of its sequence.
proof fn lemma_update_comp_added_ok_prefix(
    g: Seq<CellView>,
    w: int,
    h: int,
    s: Seq<(EntityId, Map<ComponentType, Component>)>,
    c: Map<EntityId, Map<ComponentType, Component>>,
    turn_count: u64,
    k: int,
)
    requires
        update_comp_added_ok(g, w, h, s, c, turn_count),
        0 <= k <= s.len(),
    ensures
        update_comp_added_ok(g, w, h, s.subrange(0, k), c, turn_count),
    decreases s.len(),
{
    if k == s.len() {
        assert(s.subrange(0, k) =~= s);
    } else {
        assert(s.drop_last() =~= s.subrange(0, s.len() - 1));
        lemma_update_comp_added_ok_prefix(g, w, h, s.drop_last(), c, turn_count, k);
        assert(s.drop_last().subrange(0, k) =~= s.subrange(0, k));
    }
}

/// An ok-chain holds of every prefix of its sequence.
proof fn lemma_update_comp_removed_ok_prefix(
    g: Seq<CellView>,
    w: int,
    h: int,
    s: Seq<(EntityId, Seq<ComponentType>)>,
    c: Map<EntityId, Map<ComponentType, Component>>,
    turn_count: u64,
    k: int,
)
    requires
        update_comp_removed_ok(g, w, h, s, c, turn_count),
        0 <= k <= s.len(),
    ensures
        update_comp_removed_ok(g, w, h, s.subrange(0, k), c, turn_count),
    decreases s.len(),
{
    if k == s.len() {
        assert(s.subrange(0, k) =~= s);
    } else {
        assert(s.drop_last() =~= s.subrange(0, s.len() - 1));
        lemma_update_comp_removed_ok_prefix(g, w, h, s.drop_last(), c, turn_count, k);
        assert(s.drop_last().subrange(0, k) =~= s.subrange(0, k));
    }
}

impl SpatialHashMap {
    /// Replay one diff against the grid, reading entity data from the
    /// canonical store as it stands before that diff is committed: newly
    /// created entities settle on their cells, destroyed entities leave
    /// theirs, component additions move and re-aggregate their entities, and
    /// component removals subtract what left — in exactly that order.
    pub fn update<T: crate::table_table::EntityTable>(
        &mut self,
        summary: &crate::update::UpdateSummary,
        entities: &T,
        turn_count: u64,
    )
        requires
            old(self).wf(),
            summary.wf(),
            entities.inv(),
            update_ok(
                old(self).cells_seq(),
                old(self).grid_width(),
                old(self).grid_height(),
                *summary,
                entities.contents(),
                turn_count,
            ),
        ensures
            final(self).wf(),
            final(self).grid_width() == old(self).grid_width(),
            final(self).grid_height() == old(self).grid_height(),
            final(self).level_id() == old(self).level_id(),
            final(self).cells_seq() == spec_update(
                old(self).cells_seq(),
                old(self).grid_width(),
                *summary,
                entities.contents(),
                turn_count,
            ),
    {
        let ghost g0 = self.cells_seq();
        let ghost w = self.grid_width();
        let ghost h = self.grid_height();
        let ghost c = entities.contents();
        let ghost s1 = summary.added_seq();
        let mut i: usize = 0;
        let n1 = summary.added_count();
        while i < n1
            invariant
                self.wf(),
                i <= n1,
                n1 == s1.len(),
                s1 == summary.added_seq(),
                summary.wf(),
                update_added_ok(g0, w, h, s1, turn_count),
                g0 == old(self).cells_seq(),
                w == self.grid_width() && w == old(self).grid_width(),
                h == self.grid_height() && h == old(self).grid_height(),
                self.level_id() == old(self).level_id(),
                self.cells_seq() == spec_update_added(g0, w, s1.subrange(0, i as int), turn_count),
            decreases n1 - i,
        {
            let (id, table) = summary.added_at(i);
            let pairs = table.pairs();
            proof {
                lemma_update_added_ok_prefix(g0, w, h, s1, turn_count, i + 1);
                assert(s1.subrange(0, i + 1 as int).drop_last() =~= s1.subrange(0, i as int));
                assert(s1.subrange(0, i + 1 as int).last() == s1[i as int]);
            }
            self.add_entity(id, &pairs, turn_count);
            i = i + 1;
        }
        proof {
            assert(s1.subrange(0, n1 as int) =~= s1);
        }
        let ghost g1 = spec_update_added(g0, w, s1, turn_count);
        let ghost s2 = summary.removed_seq();
        let mut i: usize = 0;
        let n2 = summary.removed_count();
        while i < n2
            invariant
                self.wf(),
                i <= n2,
                n2 == s2.len(),
                s2 == summary.removed_seq(),
                summary.wf(),
                entities.inv(),
                c == entities.contents(),
                update_removed_ok(g1, w, h, s2, c, turn_count),
                w == self.grid_width() && w == old(self).grid_width(),
                h == self.grid_height() && h == old(self).grid_height(),
                self.level_id() == old(self).level_id(),
                self.cells_seq() == spec_update_removed(g1, w, s2.subrange(0, i as int), c, turn_count),
            decreases n2 - i,
        {
            let id = summary.removed_at(i);
            proof {
                lemma_update_removed_ok_prefix(g1, w, h, s2, c, turn_count, i + 1);
                assert(s2.subrange(0, i + 1 as int).drop_last() =~= s2.subrange(0, i as int));
                assert(s2.subrange(0, i + 1 as int).last() == s2[i as int]);
            }
            let pairs = entities.components_of(id);
            self.remove_entity(id, &pairs, turn_count);
            i = i + 1;
        }
        proof {
            assert(s2.subrange(0, n2 as int) =~= s2);
        }
        let ghost g2 = spec_update_removed(g1, w, s2, c, turn_count);
        let ghost s3 = summary.comp_added_seq();
        let mut i: usize = 0;
        let n3 = summary.comp_added_count();
        while i < n3
            invariant
                self.wf(),
                i <= n3,
                n3 == s3.len(),
                s3 == summary.comp_added_seq(),
                summary.wf(),
                entities.inv(),
                c == entities.contents(),
                update_comp_added_ok(g2, w, h, s3, c, turn_count),
                w == self.grid_width() && w == old(self).grid_width(),
                h == self.grid_height() && h == old(self).grid_height(),
                self.level_id() == old(self).level_id(),
                self.cells_seq() == spec_update_comp_added(g2, w, s3.subrange(0, i as int), c, turn_count),
            decreases n3 - i,
        {
            let (id, changes) = summary.comp_added_at(i);
            proof {
                lemma_update_comp_added_ok_prefix(g2, w, h, s3, c, turn_count, i + 1);
                assert(s3.subrange(0, i + 1 as int).drop_last() =~= s3.subrange(0, i as int));
                assert(s3.subrange(0, i + 1 as int).last() == s3[i as int]);
            }
            let pairs = entities.components_of(id);
            self.add_components(id, &pairs, changes, turn_count);
            i = i + 1;
        }
        proof {
            assert(s3.subrange(0, n3 as int) =~= s3);
        }
        let ghost g3 = spec_update_comp_added(g2, w, s3, c, turn_count);
        let ghost s4 = summary.comp_removed_seq();
        let mut i: usize = 0;
        let n4 = summary.comp_removed_count();
        while i < n4
            invariant
                self.wf(),
                i <= n4,
                n4 == s4.len(),
                s4 == summary.comp_removed_seq(),
                summary.wf(),
                entities.inv(),
                c == entities.contents(),
                update_comp_removed_ok(g3, w, h, s4, c, turn_count),
                w == self.grid_width() && w == old(self).grid_width(),
                h == self.grid_height() && h == old(self).grid_height(),
                self.level_id() == old(self).level_id(),
                self.cells_seq() == spec_update_comp_removed(g3, w, s4.subrange(0, i as int), c, turn_count),
            decreases n4 - i,
        {
            let (id, bucket) = summary.comp_removed_at(i);
            proof {
                lemma_update_comp_removed_ok_prefix(g3, w, h, s4, c, turn_count, i + 1);
                assert(s4.subrange(0, i + 1 as int).drop_last() =~= s4.subrange(0, i as int));
                assert(s4.subrange(0, i + 1 as int).last() == s4[i as int]);
            }
            let pairs = entities.components_of(id);
            self.remove_components(id, &pairs, bucket, turn_count);
            i = i + 1;
        }
        proof {
            assert(s4.subrange(0, n4 as int) =~= s4);
        }
    }
}

} // verus!
