//! The data that the inspector works on, and where rules come from.

use vstd::prelude::*;
use crate::domain::models::{EnrichedRule, EnrichedView, rule_views};

pub mod models;

verus! {

/// A source of rules.
pub trait RuleRepository {
    /// The rules that the source holds, in loading order.
    spec fn rules(&self) -> Seq<EnrichedView>;

    /// Loads all rules of the source, in loading order.
    fn load_all(&self) -> (loaded: Vec<EnrichedRule>)
        ensures
            rule_views(loaded@) == self.rules(),
    ;
}

} // verus!
