//! Bookkeeping values riding along with an update: tagged metadata about the
//! step itself (how long the turn or the action took), keyed by discriminant
//! exactly like entity components are.

use vstd::prelude::*;
use crate::assoc::{assoc_map, distinct_keys, lemma_assoc_absent, lemma_assoc_index,
    lemma_assoc_push, lemma_assoc_update};

verus! {

/// The discriminant of a [`Metadatum`].
#[derive(Clone, Copy, Debug, PartialEq, Eq, Structural)]
pub enum MetadatumType {
    TurnTime,
    ActionTime,
}

/// One tagged piece of metadata about a simulation step.
#[derive(Clone, Copy, Debug, PartialEq, Eq, Structural)]
pub enum Metadatum {
    TurnTime(u64),
    ActionTime(u64),
}

impl Metadatum {
    /// The discriminant of a metadatum: a pure, total function of the value.
    pub open spec fn spec_to_type(&self) -> MetadatumType {
        match *self {
            Metadatum::TurnTime(_) => MetadatumType::TurnTime,
            Metadatum::ActionTime(_) => MetadatumType::ActionTime,
        }
    }

    #[verifier::when_used_as_spec(spec_to_type)]
    pub fn to_type(&self) -> (r: MetadatumType)
        ensures
            r == self.spec_to_type(),
    {
        match *self {
            Metadatum::TurnTime(_) => MetadatumType::TurnTime,
            Metadatum::ActionTime(_) => MetadatumType::ActionTime,
        }
    }
}

/// A step's metadata, at most one entry per discriminant.
pub struct Metadata {
    slots: Vec<(MetadatumType, Metadatum)>,
}

impl Metadata {
    /// Internal well-formedness: one slot per discriminant, keyed by the
    /// discriminant of the value it holds.
    pub closed spec fn wf(&self) -> bool {
        &&& distinct_keys(self.slots@)
        &&& forall|i: int|
            0 <= i < self.slots@.len() ==> (#[trigger] self.slots@[i]).0
                == self.slots@[i].1.to_type()
    }
}

impl View for Metadata {
    type V = Map<MetadatumType, Metadatum>;

    closed spec fn view(&self) -> Map<MetadatumType, Metadatum> {
        assoc_map(self.slots@)
    }
}

impl Metadata {
    /// An empty metadata table.
    pub fn new() -> (r: Metadata)
        ensures
            r.wf(),
            r@ == Map::<MetadatumType, Metadatum>::empty(),
    {
        Metadata { slots: Vec::new() }
    }

    /// Index of the slot holding the given discriminant, if any.
    fn index_of(&self, entry_type: MetadatumType) -> (r: Option<usize>)
        ensures
            match r {
                Some(i) => i < self.slots@.len() && self.slots@[i as int].0 == entry_type,
                None => forall|j: int|
                    0 <= j < self.slots@.len() ==> (#[trigger] self.slots@[j]).0 != entry_type,
            },
    {
        let mut i: usize = 0;
        while i < self.slots.len()
            invariant
                i <= self.slots@.len(),
                forall|j: int| 0 <= j < i ==> (#[trigger] self.slots@[j]).0 != entry_type,
            decreases self.slots@.len() - i,
        {
            if self.slots[i].0 == entry_type {
                return Some(i);
            }
            i = i + 1;
        }
        None
    }

    /// Insert a metadatum, keyed by its own discriminant, displacing any of
    /// the same discriminant.
    pub fn add(&mut self, entry: Metadatum) -> (displaced: Option<Metadatum>)
        requires
            old(self).wf(),
        ensures
            final(self).wf(),
            final(self)@ == old(self)@.insert(entry.to_type(), entry),
            match displaced {
                Some(m) => old(self)@.contains_key(entry.to_type()) && m == old(self)@[entry.to_type()],
                None => !old(self)@.contains_key(entry.to_type()),
            },
    {
        let t = entry.to_type();
        match self.index_of(t) {
            Some(i) => {
                let displaced = self.slots[i].1;
                proof {
                    lemma_assoc_index(self.slots@, i as int);
                    lemma_assoc_update(self.slots@, i as int, entry);
                }
                self.slots[i] = (t, entry);
                Some(displaced)
            }
            None => {
                proof {
                    lemma_assoc_absent(self.slots@, t);
                    lemma_assoc_push(self.slots@, t, entry);
                }
                self.slots.push((t, entry));
                None
            }
        }
    }

    /// The metadatum of the given discriminant, if present.
    pub fn get(&self, entry_type: MetadatumType) -> (r: Option<&Metadatum>)
        requires
            self.wf(),
        ensures
            match r {
                Some(m) => self@.contains_key(entry_type) && *m == self@[entry_type],
                None => !self@.contains_key(entry_type),
            },
    {
        match self.index_of(entry_type) {
            Some(i) => {
                proof {
                    lemma_assoc_index(self.slots@, i as int);
                }
                Some(&self.slots[i].1)
            }
            None => {
                proof {
                    lemma_assoc_absent(self.slots@, entry_type);
                }
                None
            }
        }
    }

    /// Whether a metadatum of the given discriminant is present.
    pub fn has(&self, entry_type: MetadatumType) -> (r: bool)
        requires
            self.wf(),
        ensures
            r == self@.contains_key(entry_type),
    {
        self.get(entry_type).is_some()
    }
}

} // verus!
