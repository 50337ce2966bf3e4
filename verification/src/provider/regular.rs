//! The honest provider: it reports what it used, give or take what its
//! measurement is off by.

use vstd::prelude::*;
use crate::fixed::Fixed;
use crate::id::{following, Id, IdSource};
use crate::provider::ProviderCommon;
use crate::task::SubTask;

verus! {

/// The standard deviation of the relative error of a measurement, in raw
/// units (0.05).
pub const USAGE_JITTER_RAW: u64 = 50_000_000;

#[derive(Clone, Copy, Debug, PartialEq, Eq, Structural)]
pub struct RegularProvider {
    pub common: ProviderCommon,
}

impl RegularProvider {
    /// What the provider reports: the usage it had, times `noise`, which is
    /// one plus the relative error of the measurement.
    pub open spec fn reported(self, subtask: SubTask, noise: Fixed) -> Fixed {
        subtask.nominal_usage.times_spec(self.common.usage_factor).times_spec(noise)
    }

    pub fn new(ids: &mut IdSource, min_price: Fixed, usage_factor: Fixed) -> (r: RegularProvider)
        ensures
            r.common == ProviderCommon::initial(
                Id { value: old(ids).upcoming() },
                min_price,
                usage_factor,
            ),
            final(ids).upcoming() == following(old(ids).upcoming()),
    {
        Self::with_id(Id::new(ids), min_price, usage_factor)
    }

    pub fn with_id(id: Id, min_price: Fixed, usage_factor: Fixed) -> (r: RegularProvider)
        ensures
            r.common == ProviderCommon::initial(id, min_price, usage_factor),
    {
        RegularProvider { common: ProviderCommon::new(id, min_price, usage_factor) }
    }

    /// The standard deviation of the relative error of a measurement.
    pub fn usage_jitter() -> (r: Fixed)
        ensures
            r.raw == USAGE_JITTER_RAW,
    {
        Fixed::from_raw(USAGE_JITTER_RAW)
    }

    pub fn report_usage(&self, subtask: &SubTask, bid: Fixed, noise: Fixed) -> (r: Fixed)
        ensures
            r == self.reported(*subtask, noise),
    {
        let usage = subtask.nominal_usage.times(self.common.usage_factor);
        usage.times(noise)
    }
}

} // verus!
