use vstd::prelude::*;
use crate::payments::Payment;

verus! {

/// Payload of a settlement notification: the settled record as it stands
/// after settlement (a recurring payment already rescheduled).
#[derive(Clone, Copy, PartialEq, Eq, Structural, Debug)]
pub struct ProcessedPaymentData {
    pub amount: u128,
    pub scheduled_time: u64,
    pub is_monthly: bool,
}

/// One entry of the event log.
#[derive(Clone, Copy, PartialEq, Eq, Structural, Debug)]
pub enum EventRecord {
    TopUp { caller: u64, amount: u128, token: u64 },
    PaymentAdded { recipient_id: u64, handler: u64, payment: Payment },
    PaymentProcessed { payment_id: u64, processor: u64, data: ProcessedPaymentData },
}

/// Append-only sink of ledger occurrences, for off-system observers. The
/// engine writes to it and never reads it back.
pub struct MoneyEvents {
    log: Vec<EventRecord>,
}

impl MoneyEvents {
    /// The entries recorded so far, oldest first.
    pub closed spec fn entries(&self) -> Seq<EventRecord> {
        self.log@
    }

    /// An empty sink.
    pub fn new() -> (r: MoneyEvents)
        ensures
            r.entries() == Seq::<EventRecord>::empty(),
    {
        MoneyEvents { log: Vec::new() }
    }

    /// Number of entries recorded so far.
    pub fn len(&self) -> (r: usize)
        ensures
            r == self.entries().len(),
    {
        self.log.len()
    }

    /// The entry at a given position.
    pub fn entry_at(&self, i: usize) -> (r: EventRecord)
        requires
            i < self.entries().len(),
        ensures
            r == self.entries()[i as int],
    {
        self.log[i]
    }

    /// Record a deposit.
    pub fn topup_event(&mut self, caller: u64, amount: u128, token: u64)
        ensures
            final(self).entries() == old(self).entries().push(
                EventRecord::TopUp { caller, amount, token },
            ),
    {
        self.log.push(EventRecord::TopUp { caller, amount, token });
    }

    /// Record a payment registration.
    pub fn payment_added_event(&mut self, recipient_id: u64, handler: u64, payment: Payment)
        ensures
            final(self).entries() == old(self).entries().push(
                EventRecord::PaymentAdded { recipient_id, handler, payment },
            ),
    {
        self.log.push(EventRecord::PaymentAdded { recipient_id, handler, payment });
    }

    /// Record a settlement.
    pub fn payment_processed_event(
        &mut self,
        payment_id: u64,
        processor: u64,
        data: ProcessedPaymentData,
    )
        ensures
            final(self).entries() == old(self).entries().push(
                EventRecord::PaymentProcessed { payment_id, processor, data },
            ),
    {
        self.log.push(EventRecord::PaymentProcessed { payment_id, processor, data });
    }

    /// Record a settlement, taking the payload from the settled record.
    pub fn add_processed_payment_event(&mut self, payment_id: u64, processor: u64, data: &Payment)
        ensures
            final(self).entries() == old(self).entries().push(
                EventRecord::PaymentProcessed {
                    payment_id,
                    processor,
                    data: ProcessedPaymentData {
                        amount: data.amount,
                        scheduled_time: data.scheduled_time,
                        is_monthly: data.is_monthly,
                    },
                },
            ),
    {
        self.payment_processed_event(
            payment_id,
            processor,
            ProcessedPaymentData {
                amount: data.amount,
                scheduled_time: data.scheduled_time,
                is_monthly: data.is_monthly,
            },
        );
    }
}

} // verus!
