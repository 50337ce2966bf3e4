//! The provider that overstates its usage a little more with every subtask
//! that it has computed, up to what the budget allows.

use vstd::prelude::*;
use crate::fixed::Fixed;
use crate::id::{following, Id, IdSource};
use crate::provider::ProviderCommon;
use crate::task::SubTask;

verus! {

#[derive(Clone, Copy, Debug, PartialEq, Eq, Structural)]
pub struct LinearUsageInflationProvider {
    /// By how much the report grows with each subtask computed.
    pub inflation_factor: Fixed,
    pub common: ProviderCommon,
}

impl LinearUsageInflationProvider {
    /// What the provider reports: its true usage plus the inflation factor
    /// for each subtask computed so far, but no more than `budget / bid`.
    pub open spec fn reported(self, subtask: SubTask, bid: Fixed) -> Fixed {
        Fixed::from_int_spec(self.common.num_subtasks_computed as u64).times_spec(
            self.inflation_factor,
        ).plus_spec(self.common.usage_factor.times_spec(subtask.nominal_usage)).min_spec(
            subtask.budget.over_spec(bid),
        )
    }

    pub fn new(ids: &mut IdSource, min_price: Fixed, usage_factor: Fixed, inflation_factor: Fixed) -> (r:
        LinearUsageInflationProvider)
        ensures
            r.inflation_factor == inflation_factor,
            r.common == ProviderCommon::initial(
                Id { value: old(ids).upcoming() },
                min_price,
                usage_factor,
            ),
            final(ids).upcoming() == following(old(ids).upcoming()),
    {
        Self::with_id(Id::new(ids), min_price, usage_factor, inflation_factor)
    }

    pub fn with_id(id: Id, min_price: Fixed, usage_factor: Fixed, inflation_factor: Fixed) -> (r:
        LinearUsageInflationProvider)
        ensures
            r.inflation_factor == inflation_factor,
            r.common == ProviderCommon::initial(id, min_price, usage_factor),
    {
        LinearUsageInflationProvider {
            inflation_factor,
            common: ProviderCommon::new(id, min_price, usage_factor),
        }
    }

    pub fn report_usage(&self, subtask: &SubTask, bid: Fixed) -> (r: Fixed)
        ensures
            r == self.reported(*subtask, bid),
    {
        let intercept = self.common.usage_factor.times(subtask.nominal_usage);
        let usage = Fixed::from_int(self.common.num_subtasks_computed as u64).times(
            self.inflation_factor,
        ).plus(intercept);
        usage.min(subtask.budget.over(bid))
    }
}

} // verus!
