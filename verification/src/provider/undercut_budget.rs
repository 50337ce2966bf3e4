//! The provider that always reports a usage just under what the budget
//! allows, whatever it did.

use vstd::prelude::*;
use crate::fixed::Fixed;
use crate::id::{following, Id, IdSource};
use crate::provider::ProviderCommon;
use crate::task::SubTask;

verus! {

#[derive(Clone, Copy, Debug, PartialEq, Eq, Structural)]
pub struct UndercutBudgetProvider {
    /// The share of the budget that the provider leaves unclaimed.
    pub epsilon: Fixed,
    pub common: ProviderCommon,
}

impl UndercutBudgetProvider {
    /// What the provider reports: `(budget / bid) * (1 - epsilon)`.
    pub open spec fn reported(self, subtask: SubTask, bid: Fixed) -> Fixed {
        subtask.budget.over_spec(bid).times_spec(
            (Fixed { raw: crate::fixed::SCALE }).minus_spec(self.epsilon),
        )
    }

    pub fn new(ids: &mut IdSource, min_price: Fixed, usage_factor: Fixed, epsilon: Fixed) -> (r:
        UndercutBudgetProvider)
        ensures
            r.epsilon == epsilon,
            r.common == ProviderCommon::initial(
                Id { value: old(ids).upcoming() },
                min_price,
                usage_factor,
            ),
            final(ids).upcoming() == following(old(ids).upcoming()),
    {
        Self::with_id(Id::new(ids), min_price, usage_factor, epsilon)
    }

    pub fn with_id(id: Id, min_price: Fixed, usage_factor: Fixed, epsilon: Fixed) -> (r:
        UndercutBudgetProvider)
        ensures
            r.epsilon == epsilon,
            r.common == ProviderCommon::initial(id, min_price, usage_factor),
    {
        UndercutBudgetProvider { epsilon, common: ProviderCommon::new(id, min_price, usage_factor) }
    }

    pub fn report_usage(&self, subtask: &SubTask, bid: Fixed) -> (r: Fixed)
        ensures
            r == self.reported(*subtask, bid),
    {
        subtask.budget.over(bid).times(Fixed::one().minus(self.epsilon))
    }
}

} // verus!
