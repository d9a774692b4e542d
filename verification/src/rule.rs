//! Verdicts of the rule layer.
//!
//! Rules inspect a proposed [`UpdateSummary`] against the store before and
//! after it and either let it stand, possibly scheduling follow-up updates,
//! or veto it, possibly substituting updates of their own. Rules only ever
//! produce diffs; they never touch storage directly.

use vstd::prelude::*;
use crate::table_table::EntityTable;
use crate::update::UpdateSummary;

verus! {

/// A rule's verdict on a proposed update.
pub enum RuleResult {
    /// The update stands; these updates follow it.
    After(Vec<UpdateSummary>),
    /// The update is vetoed; these updates happen instead.
    Instead(Vec<UpdateSummary>),
}

/// The verdict that lets an update stand with nothing to follow.
pub fn pass() -> (r: RuleResult)
    ensures
        r is After,
        match r {
            RuleResult::After(v) => v@.len() == 0,
            RuleResult::Instead(v) => false,
        },
{
    RuleResult::After(Vec::new())
}

/// The verdict that vetoes an update with nothing in its place.
pub fn fail() -> (r: RuleResult)
    ensures
        r is Instead,
        match r {
            RuleResult::After(v) => false,
            RuleResult::Instead(v) => v@.len() == 0,
        },
{
    RuleResult::Instead(Vec::new())
}

/// A rule: a check of one proposed update against the store as it stands
/// before and after that update. Implemented by the simulation's rule set.
pub trait Rule<T: EntityTable> {
    /// Judge the proposed update.
    fn check(&self, summary: &UpdateSummary, before: &T, after: &T) -> RuleResult;
}

} // verus!
