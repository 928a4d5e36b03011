use vstd::prelude::*;

verus! {

/// Fixed interval (30 days, in seconds) added to a recurring payment's
/// scheduled time on each successful settlement.
pub const RECURRENT_PERIOD: u64 = 30 * 24 * 60 * 60;

/// One scheduled payment: who gets paid, how much, when, and whether the
/// payment repeats every recurrence period.
#[derive(Clone, Copy, PartialEq, Eq, Structural, Debug)]
pub struct Payment {
    /// Compact identifier of the recipient, assigned by the recipient directory.
    pub recipient_id: u64,
    /// Amount owed, in the instance's single accepted value unit.
    pub amount: u128,
    /// Clock value at which the payment is scheduled.
    pub scheduled_time: u64,
    /// True for a recurring payment that reschedules itself after settlement.
    pub is_monthly: bool,
}

impl Payment {
    /// The record as it stands after one successful settlement: a recurring
    /// payment advances by exactly one recurrence period, a one-off payment
    /// is unchanged (the store retires it instead).
    pub open spec fn after_recurrence(self) -> Payment {
        if self.is_monthly {
            Payment { scheduled_time: (self.scheduled_time + RECURRENT_PERIOD) as u64, ..self }
        } else {
            self
        }
    }

    /// Advance a recurring payment's scheduled time by one recurrence period;
    /// a one-off payment is left untouched.
    pub fn update_recurrence(&mut self)
        requires
            old(self).is_monthly ==> old(self).scheduled_time + RECURRENT_PERIOD <= u64::MAX,
        ensures
            *final(self) == old(self).after_recurrence(),
    {
        if !self.is_monthly {
            return;
        }
        self.scheduled_time = self.scheduled_time + RECURRENT_PERIOD;
    }
}

} // verus!
