//! One entity's heterogeneous set of components.
//!
//! A [`Table`] maps component discriminants to components, holding at most
//! one component per discriminant. Its abstract view is a
//! `Map<ComponentType, Component>`, and every operation is specified against
//! that view.

use vstd::prelude::*;
use crate::assoc::{assoc_map, distinct_keys, lemma_assoc_absent, lemma_assoc_index,
    lemma_assoc_len, lemma_assoc_push, lemma_assoc_remove, lemma_assoc_update};
use crate::entity::{Component, ComponentType, Vector2};

verus! {

/// A single entity's components, keyed by discriminant.
pub struct Table {
    pub(crate) slots: Vec<(ComponentType, Component)>,
}

impl Table {
    /// Internal well-formedness: one slot per discriminant, and each slot's
    /// key is the discriminant of the component it holds.
    pub closed spec fn wf(&self) -> bool {
        &&& distinct_keys(self.slots@)
        &&& forall|i: int|
            0 <= i < self.slots@.len() ==> (#[trigger] self.slots@[i]).0 == self.slots@[i].1.to_type()
    }

    /// The slots as a sequence of (discriminant, component) pairs.
    pub closed spec fn pairs_seq(&self) -> Seq<(ComponentType, Component)> {
        self.slots@
    }
}

impl View for Table {
    type V = Map<ComponentType, Component>;

    open spec fn view(&self) -> Map<ComponentType, Component> {
        assoc_map(self.pairs_seq())
    }
}

impl Table {
    /// An empty table.
    pub fn new() -> (r: Table)
        ensures
            r.wf(),
            r@ == Map::<ComponentType, Component>::empty(),
    {
        Table { slots: Vec::new() }
    }

    /// Index of the slot holding the given discriminant, if any.
    fn index_of(&self, entry_type: ComponentType) -> (r: Option<usize>)
        ensures
            match r {
                Some(i) => i < self.slots@.len() && self.slots@[i as int].0 == entry_type,
                None => forall|j: int| 0 <= j < self.slots@.len()
                    ==> (#[trigger] self.slots@[j]).0 != entry_type,
            },
    {
        let mut i: usize = 0;
        while i < self.slots.len()
            invariant
                i <= self.slots@.len(),
                forall|j: int| 0 <= j < i ==> (#[trigger] self.slots@[j]).0 != entry_type,
            decreases self.slots@.len() - i,
        {
            if self.slots[i].0 == entry_type {
                return Some(i);
            }
            i = i + 1;
        }
        None
    }

    /// Insert a component, keyed by its own discriminant. Any component of
    /// the same discriminant is displaced and returned.
    pub fn add(&mut self, entry: Component) -> (displaced: Option<Component>)
        requires
            old(self).wf(),
        ensures
            final(self).wf(),
            final(self)@ == old(self)@.insert(entry.to_type(), entry),
            match displaced {
                Some(c) => old(self)@.contains_key(entry.to_type())
                    && c == old(self)@[entry.to_type()],
                None => !old(self)@.contains_key(entry.to_type()),
            },
    {
        let t = entry.to_type();
        match self.index_of(t) {
            Some(i) => {
                let displaced = self.slots[i].1;
                proof {
                    lemma_assoc_index(self.slots@, i as int);
                    lemma_assoc_update(self.slots@, i as int, entry);
                }
                self.slots[i] = (t, entry);
                Some(displaced)
            }
            None => {
                proof {
                    lemma_assoc_absent(self.slots@, t);
                    lemma_assoc_push(self.slots@, t, entry);
                }
                self.slots.push((t, entry));
                None
            }
        }
    }

    /// Remove and return the component of the given discriminant, if present.
    pub fn remove(&mut self, entry_type: ComponentType) -> (removed: Option<Component>)
        requires
            old(self).wf(),
        ensures
            final(self).wf(),
            final(self)@ == old(self)@.remove(entry_type),
            match removed {
                Some(c) => old(self)@.contains_key(entry_type) && c == old(self)@[entry_type],
                None => !old(self)@.contains_key(entry_type),
            },
    {
        match self.index_of(entry_type) {
            Some(i) => {
                proof {
                    lemma_assoc_index(self.slots@, i as int);
                    lemma_assoc_remove(self.slots@, i as int);
                }
                let (_, removed) = self.slots.remove(i);
                Some(removed)
            }
            None => {
                proof {
                    lemma_assoc_absent(self.slots@, entry_type);
                    assert(old(self)@.remove(entry_type) =~= old(self)@);
                }
                None
            }
        }
    }

    /// The component of the given discriminant, if present.
    pub fn get(&self, entry_type: ComponentType) -> (r: Option<&Component>)
        requires
            self.wf(),
        ensures
            match r {
                Some(c) => self@.contains_key(entry_type) && *c == self@[entry_type],
                None => !self@.contains_key(entry_type),
            },
    {
        match self.index_of(entry_type) {
            Some(i) => {
                proof {
                    lemma_assoc_index(self.slots@, i as int);
                }
                Some(&self.slots[i].1)
            }
            None => {
                proof {
                    lemma_assoc_absent(self.slots@, entry_type);
                }
                None
            }
        }
    }

    /// Whether a component of the given discriminant is present.
    pub fn has(&self, entry_type: ComponentType) -> (r: bool)
        requires
            self.wf(),
        ensures
            r == self@.contains_key(entry_type),
    {
        self.get(entry_type).is_some()
    }

    /// The entity's position payload, if it has a position component.
    pub fn position(&self) -> (r: Option<Vector2>)
        requires
            self.wf(),
        ensures
            r == spec_position(self@),
    {
        match self.get(ComponentType::Position) {
            Some(c) => c.as_position(),
            None => None,
        }
    }

    /// How many components the table holds.
    pub fn len(&self) -> (r: usize)
        requires
            self.wf(),
        ensures
            r == self@.dom().len(),
    {
        proof {
            lemma_assoc_len(self.slots@);
        }
        self.slots.len()
    }

    /// A snapshot of the slots: every (discriminant, component) pair, each
    /// discriminant once. The order is unspecified.
    pub fn pairs(&self) -> (r: Vec<(ComponentType, Component)>)
        requires
            self.wf(),
        ensures
            distinct_keys(r@),
            assoc_map(r@) == self@,
            forall|i: int| 0 <= i < r@.len() ==> (#[trigger] r@[i]).0 == r@[i].1.to_type(),
    {
        let mut r: Vec<(ComponentType, Component)> = Vec::new();
        let mut i: usize = 0;
        while i < self.slots.len()
            invariant
                i <= self.slots@.len(),
                r@ =~= self.slots@.subrange(0, i as int),
            decreases self.slots@.len() - i,
        {
            r.push(self.slots[i]);
            i = i + 1;
        }
        proof {
            assert(r@ =~= self.slots@);
        }
        r
    }

    /// An independent copy holding the same components.
    pub fn duplicate(&self) -> (r: Table)
        requires
            self.wf(),
        ensures
            r.wf(),
            r@ == self@,
    {
        Table { slots: self.pairs() }
    }

    /// The discriminants present, each once. The order is unspecified.
    pub fn types(&self) -> (r: Vec<ComponentType>)
        requires
            self.wf(),
        ensures
            forall|i: int, j: int| 0 <= i < j < r@.len() ==> r@[i] != r@[j],
            forall|i: int| 0 <= i < r@.len() ==> self@.contains_key(#[trigger] r@[i]),
            forall|t: ComponentType| self@.contains_key(t) ==> r@.contains(t),
            r@.len() == self@.dom().len(),
    {
        let pairs = self.pairs();
        let ghost s = pairs@;
        let mut r: Vec<ComponentType> = Vec::new();
        let mut i: usize = 0;
        while i < pairs.len()
            invariant
                i <= s.len(),
                pairs@ == s,
                distinct_keys(s),
                assoc_map(s) == self@,
                r@.len() == i,
                forall|j: int| 0 <= j < i ==> r@[j] == (#[trigger] s[j]).0,
            decreases s.len() - i,
        {
            r.push(pairs[i].0);
            i = i + 1;
        }
        proof {
            assert forall|a: int, b: int| 0 <= a < b < r@.len() implies r@[a] != r@[b] by {
                assert(r@[a] == s[a].0 && r@[b] == s[b].0);
            }
            assert forall|a: int| 0 <= a < r@.len() implies self@.contains_key(#[trigger] r@[a]) by {
                lemma_assoc_index(s, a);
            }
            assert forall|t: ComponentType| self@.contains_key(t) implies r@.contains(t) by {
                crate::assoc::lemma_assoc_dom(s, t);
                let j = choose|j: int| 0 <= j < s.len() && (#[trigger] s[j]).0 == t;
                assert(r@[j] == t);
            }
            lemma_assoc_len(s);
        }
        r
    }
}

/// Every component of the map is keyed by its own discriminant.
pub open spec fn tagged(m: Map<ComponentType, Component>) -> bool {
    forall|t: ComponentType| m.contains_key(t) ==> (#[trigger] m[t]).to_type() == t
}

impl Table {
    /// A well-formed table's view is tagged: each component sits under its
    /// own discriminant.
    pub proof fn lemma_view_tagged(&self)
        requires
            self.wf(),
        ensures
            tagged(self@),
    {
        assert forall|t: ComponentType| self@.contains_key(t) implies (#[trigger] self@[
        t]).to_type() == t by {
            crate::assoc::lemma_assoc_dom(self.slots@, t);
            let i = choose|i: int| 0 <= i < self.slots@.len() && (#[trigger] self.slots@[i]).0 == t;
            lemma_assoc_index(self.slots@, i);
        }
    }
}

/// The position recorded in a component map, if any.
pub open spec fn spec_position(m: Map<ComponentType, Component>) -> Option<Vector2> {
    if m.contains_key(ComponentType::Position) {
        m[ComponentType::Position].as_position()
    } else {
        None
    }
}

} // verus!
