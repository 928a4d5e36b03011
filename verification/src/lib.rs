use vstd::prelude::*;

pub mod deployer;
pub mod engine;
pub mod events;
pub mod payments;
pub mod whitelist;

use crate::engine::{
    distinct_keys, has_key, lemma_key_index_unique, lemma_seq_step,
    lemma_settle_records_props, process_batch, record_of, settle_records, BatchEnv, Transfer,
};
use crate::events::{EventRecord, MoneyEvents};
use crate::payments::{Payment, RECURRENT_PERIOD};
use crate::whitelist::Whitelist;

verus! {

/// Why an operation was refused.
#[derive(Clone, Copy, PartialEq, Eq, Structural, Debug)]
pub enum PayError {
    /// The caller is neither the owner nor a listed money handler.
    NotMoneyHandler,
    /// The caller is neither the owner nor a listed money processor.
    NotMoneyProcessor,
    /// A deposit was made in a unit other than the accepted one.
    InvalidToken,
    /// A batch was submitted while the held balance was zero.
    NoFundsAllocated,
    /// The running balance could not cover a batch item.
    NotEnoughFunds,
}

impl PayError {
    /// The reason string surfaced to the caller.
    pub fn message(&self) -> (r: &'static str)
        ensures
            *self == PayError::NotMoneyHandler ==> r@ == "Caller is not a money handler"@,
            *self == PayError::NotMoneyProcessor ==> r@ == "Caller is not a money processor"@,
            *self == PayError::InvalidToken ==> r@ == "Invalid token"@,
            *self == PayError::NoFundsAllocated ==> r@ == "No funds allocated to contract"@,
            *self == PayError::NotEnoughFunds ==> r@ == "Not enough funds to process payments"@,
    {
        match self {
            PayError::NotMoneyHandler => "Caller is not a money handler",
            PayError::NotMoneyProcessor => "Caller is not a money processor",
            PayError::InvalidToken => "Invalid token",
            PayError::NoFundsAllocated => "No funds allocated to contract",
            PayError::NotEnoughFunds => "Not enough funds to process payments",
        }
    }
}

/// Position of an address in the recipient directory.
pub open spec fn addr_index(recipients: Seq<u64>, address: u64) -> int {
    choose|i: int| 0 <= i < recipients.len() && recipients[i] == address
}

/// The recipient id bound to an address already in the directory: its
/// position plus one, ids being assigned sequentially from 1.
pub open spec fn recipient_id_of(recipients: Seq<u64>, address: u64) -> u64 {
    (addr_index(recipients, address) + 1) as u64
}

/// The directory after a lookup-or-create for an address: unchanged if the
/// address is already bound, extended by it otherwise.
pub open spec fn recipients_after_get_or_add(recipients: Seq<u64>, address: u64) -> Seq<u64> {
    if recipients.contains(address) {
        recipients
    } else {
        recipients.push(address)
    }
}

/// A scheduled-payment ledger instance: one accepted value unit, two
/// caller whitelists with an implicit owner superuser, a lazily grown
/// recipient directory, a store of outstanding payment records keyed by
/// monotonically assigned ids, and the held balance the settlement engine
/// draws from.
pub struct PaySyncContract {
    /// Identity of the instance owner, implicitly handler and processor.
    pub owner: u64,
    /// The single value unit this instance deals in, fixed at creation.
    pub accepted_token: u64,
    /// Identities allowed to deposit and to register payments.
    pub money_handlers: Whitelist,
    /// Identities allowed to trigger batch settlement.
    pub money_processors: Whitelist,
    /// Next payment id to assign; starts at 1 and never runs backwards.
    pub payments_index: u64,
    /// Next recipient id to assign; starts at 1 and never runs backwards.
    pub recipient_id_index: u64,
    /// Outstanding payment records, each keyed by its payment id.
    pub payments: Vec<(u64, Payment)>,
    /// Recipient directory: the address bound to id `i + 1` at position `i`.
    pub recipients: Vec<u64>,
    /// Balance of the accepted unit currently held by the instance.
    pub balance: u128,
}

impl PaySyncContract {
    /// The caller may deposit and register payments.
    pub open spec fn is_money_handler(&self, caller: u64) -> bool {
        self.money_handlers.has(caller) || caller == self.owner
    }

    /// The caller may trigger batch settlement.
    pub open spec fn is_money_processor(&self, caller: u64) -> bool {
        self.money_processors.has(caller) || caller == self.owner
    }

    /// Well-formedness: whitelists hold no duplicates; payment ids are
    /// distinct, nonzero and below the running counter; every stored record
    /// points at an assigned recipient id; the recipient counter mirrors the
    /// directory, whose addresses are bound at most once.
    pub open spec fn wf(&self) -> bool {
        &&& self.money_handlers.wf()
        &&& self.money_processors.wf()
        &&& distinct_keys(self.payments@)
        &&& self.payments_index >= 1
        &&& forall|k: int|
            0 <= k < self.payments@.len() ==> 1 <= (#[trigger] self.payments@[k]).0
                < self.payments_index
        &&& forall|k: int|
            0 <= k < self.payments@.len() ==> 1 <= (#[trigger] self.payments@[k]).1.recipient_id
                <= self.recipients@.len()
        &&& self.recipient_id_index == self.recipients@.len() + 1
        &&& forall|i: int, j: int|
            #![trigger self.recipients@[i], self.recipients@[j]]
            0 <= i < j < self.recipients@.len() ==> self.recipients@[i] != self.recipients@[j]
    }

    /// The registries and identity of two states agree.
    pub open spec fn same_registries(&self, other: &PaySyncContract) -> bool {
        &&& self.owner == other.owner
        &&& self.accepted_token == other.accepted_token
        &&& self.money_handlers == other.money_handlers
        &&& self.money_processors == other.money_processors
    }

    /// The payment store and recipient directory of two states agree.
    pub open spec fn same_payment_state(&self, other: &PaySyncContract) -> bool {
        &&& self.payments_index == other.payments_index
        &&& self.payments@ == other.payments@
        &&& self.recipient_id_index == other.recipient_id_index
        &&& self.recipients@ == other.recipients@
    }

    /// Construct an instance: seed the two whitelists, fix the accepted
    /// unit, and start both id counters at 1 with nothing stored and
    /// nothing held.
    pub fn init(
        owner: u64,
        accepted_token: u64,
        money_handlers: &Vec<u64>,
        money_processors: &Vec<u64>,
    ) -> (r: PaySyncContract)
        ensures
            r.wf(),
            r.owner == owner,
            r.accepted_token == accepted_token,
            forall|a: u64| r.money_handlers.has(a) == money_handlers@.contains(a),
            forall|a: u64| r.money_processors.has(a) == money_processors@.contains(a),
            r.payments_index == 1,
            r.recipient_id_index == 1,
            r.payments@.len() == 0,
            r.recipients@.len() == 0,
            r.balance == 0,
    {
        let mut handlers = Whitelist::new();
        let mut processors = Whitelist::new();
        let nh = money_handlers.len();
        let mut i: usize = 0;
        while i < nh
            invariant
                0 <= i <= nh,
                nh == money_handlers@.len(),
                handlers.wf(),
                forall|a: u64| handlers.has(a) == money_handlers@.take(i as int).contains(a),
            decreases nh - i,
        {
            handlers.add(money_handlers[i]);
            proof {
                lemma_contains_take_step(money_handlers@, i as int, i as int + 1);
            }
            i = i + 1;
        }
        proof {
            assert(money_handlers@.take(nh as int) =~= money_handlers@);
        }
        let np = money_processors.len();
        let mut j: usize = 0;
        while j < np
            invariant
                0 <= j <= np,
                np == money_processors@.len(),
                processors.wf(),
                forall|a: u64| processors.has(a) == money_processors@.take(j as int).contains(a),
            decreases np - j,
        {
            processors.add(money_processors[j]);
            proof {
                lemma_contains_take_step(money_processors@, j as int, j as int + 1);
            }
            j = j + 1;
        }
        proof {
            assert(money_processors@.take(np as int) =~= money_processors@);
        }
        PaySyncContract {
            owner,
            accepted_token,
            money_handlers: handlers,
            money_processors: processors,
            payments_index: 1,
            recipient_id_index: 1,
            payments: Vec::new(),
            recipients: Vec::new(),
            balance: 0,
        }
    }

    /// Authorization gate for handler-only operations.
    pub fn require_money_handler(&self, caller: u64) -> (r: bool)
        ensures
            r == self.is_money_handler(caller),
    {
        let is_listed = self.money_handlers.contains(caller);
        let is_contract_owner = self.owner == caller;
        is_listed || is_contract_owner
    }

    /// Authorization gate for processor-only operations.
    pub fn require_money_processor(&self, caller: u64) -> (r: bool)
        ensures
            r == self.is_money_processor(caller),
    {
        let is_listed = self.money_processors.contains(caller);
        let is_contract_owner = self.owner == caller;
        is_listed || is_contract_owner
    }

    /// Look an address up in the recipient directory, binding it to the next
    /// free id first if it is not yet there. A bound address keeps its id
    /// for good and a repeated call changes nothing.
    pub fn get_or_add_recipient_id(&mut self, address: u64) -> (r: u64)
        requires
            old(self).wf(),
            !old(self).recipients@.contains(address) ==> old(self).recipient_id_index < u64::MAX,
        ensures
            final(self).wf(),
            final(self).recipients@ == recipients_after_get_or_add(old(self).recipients@, address),
            final(self).recipients@.contains(address),
            r == recipient_id_of(final(self).recipients@, address),
            1 <= r <= final(self).recipients@.len(),
            old(self).recipients@.contains(address) ==> *final(self) == *old(self),
            !old(self).recipients@.contains(address) ==> {
                &&& r == old(self).recipient_id_index
                &&& final(self).recipient_id_index == old(self).recipient_id_index + 1
            },
            final(self).same_registries(old(self)),
            final(self).payments@ == old(self).payments@,
            final(self).payments_index == old(self).payments_index,
            final(self).balance == old(self).balance,
    {
        let n = self.recipients.len();
        let mut i: usize = 0;
        while i < n
            invariant
                0 <= i <= n,
                n == self.recipients@.len(),
                *self == *old(self),
                old(self).wf(),
                forall|q: int| 0 <= q < i ==> self.recipients@[q] != address,
            decreases n - i,
        {
            if self.recipients[i] == address {
                proof {
                    lemma_addr_index_unique(self.recipients@, i as int, address);
                }
                return i as u64 + 1;
            }
            i = i + 1;
        }
        assert(!self.recipients@.contains(address));
        let new_recipient_id = self.recipient_id_index;
        self.recipients.push(address);
        self.recipient_id_index = self.recipient_id_index + 1;
        proof {
            lemma_addr_index_unique(self.recipients@, n as int, address);
            assert forall|p: int, q: int|
                #![trigger self.recipients@[p], self.recipients@[q]]
                0 <= p < q < self.recipients@.len() implies self.recipients@[p]
                != self.recipients@[q] by {
                if q < n as int {
                    assert(old(self).recipients@[p] != old(self).recipients@[q]);
                } else {
                    assert(self.recipients@[q] == address);
                    assert(self.recipients@[p] == old(self).recipients@[p]);
                    assert(old(self).recipients@.contains(old(self).recipients@[p]));
                }
            }
        }
        new_recipient_id
    }

    /// Credit a deposit of the accepted unit to the held balance and record
    /// it. A caller without handler rights, or a deposit in any other unit,
    /// changes nothing.
    pub fn top_up(
        &mut self,
        caller: u64,
        token: u64,
        amount: u128,
        events: &mut MoneyEvents,
    ) -> (r: Result<(), PayError>)
        requires
            old(self).wf(),
            old(self).balance + amount <= u128::MAX,
        ensures
            final(self).wf(),
            !old(self).is_money_handler(caller) ==> r == Err::<(), PayError>(
                PayError::NotMoneyHandler,
            ) && *final(self) == *old(self) && final(events).entries() == old(events).entries(),
            old(self).is_money_handler(caller) && token != old(self).accepted_token ==> r == Err::<
                (),
                PayError,
            >(PayError::InvalidToken) && *final(self) == *old(self) && final(events).entries()
                == old(events).entries(),
            old(self).is_money_handler(caller) && token == old(self).accepted_token ==> {
                &&& r == Ok::<(), PayError>(())
                &&& final(self).balance == old(self).balance + amount
                &&& final(self).same_registries(old(self))
                &&& final(self).same_payment_state(old(self))
                &&& final(events).entries() == old(events).entries().push(
                    EventRecord::TopUp { caller, amount, token },
                )
            },
    {
        if !self.require_money_handler(caller) {
            return Err(PayError::NotMoneyHandler);
        }
        if token != self.accepted_token {
            return Err(PayError::InvalidToken);
        }
        self.balance = self.balance + amount;
        events.topup_event(caller, amount, token);
        Ok(())
    }

    /// Register a payment: bind the recipient address to its id, store the
    /// record under the next payment id, advance the counter by one, and
    /// record the registration. The assigned id is fresh and above every id
    /// ever assigned before. A caller without handler rights changes
    /// nothing.
    pub fn add_payment(
        &mut self,
        caller: u64,
        recipient: u64,
        amount: u128,
        scheduled_time: u64,
        is_monthly: bool,
        events: &mut MoneyEvents,
    ) -> (r: Result<u64, PayError>)
        requires
            old(self).wf(),
            old(self).payments_index < u64::MAX,
            !old(self).recipients@.contains(recipient) ==> old(self).recipient_id_index
                < u64::MAX,
        ensures
            final(self).wf(),
            !old(self).is_money_handler(caller) ==> r == Err::<u64, PayError>(
                PayError::NotMoneyHandler,
            ) && *final(self) == *old(self) && final(events).entries() == old(events).entries(),
            old(self).is_money_handler(caller) ==> ({
                let rid = recipient_id_of(
                    recipients_after_get_or_add(old(self).recipients@, recipient),
                    recipient,
                );
                let p = Payment { recipient_id: rid, amount, scheduled_time, is_monthly };
                let pid = old(self).payments_index;
                &&& r == Ok::<u64, PayError>(pid)
                &&& final(self).recipients@ == recipients_after_get_or_add(
                    old(self).recipients@,
                    recipient,
                )
                &&& final(self).recipient_id_index == final(self).recipients@.len() + 1
                &&& final(self).payments@ == old(self).payments@.push((pid, p))
                &&& final(self).payments_index == old(self).payments_index + 1
                &&& !has_key(old(self).payments@, pid)
                &&& forall|k: int|
                    0 <= k < old(self).payments@.len() ==> (#[trigger] old(
                        self,
                    ).payments@[k]).0 < pid
                &&& final(events).entries() == old(events).entries().push(
                    EventRecord::PaymentAdded { recipient_id: rid, handler: caller, payment: p },
                )
                &&& final(self).balance == old(self).balance
                &&& final(self).same_registries(old(self))
            }),
    {
        if !self.require_money_handler(caller) {
            return Err(PayError::NotMoneyHandler);
        }
        let recipient_id = self.get_or_add_recipient_id(recipient);
        let payment = Payment { recipient_id, amount, scheduled_time, is_monthly };
        let new_payment_id = self.payments_index;
        self.payments.push((new_payment_id, payment));
        self.payments_index = self.payments_index + 1;
        events.payment_added_event(recipient_id, caller, payment);
        proof {
            let s0 = old(self).payments@;
            let s1 = self.payments@;
            assert forall|k: int| 0 <= k < s0.len() implies (#[trigger] s0[k]).0
                < new_payment_id by {}
            if has_key(s0, new_payment_id) {
                let k = choose|k: int| 0 <= k < s0.len() && (#[trigger] s0[k]).0 == new_payment_id;
                assert(s0[k].0 < new_payment_id);
            }
            assert forall|p: int, q: int| #![trigger s1[p], s1[q]] 0 <= p < q < s1.len()
                implies s1[p].0 != s1[q].0 by {
                if q < s0.len() {
                    assert(s0[p].0 != s0[q].0);
                } else {
                    assert(s1[q].0 == new_payment_id);
                    assert(s1[p] == s0[p]);
                }
            }
        }
        Ok(new_payment_id)
    }

    /// Grant handler rights; granting rights already held changes nothing.
    /// Only a handler (or the owner) may do so.
    pub fn add_money_handler(&mut self, caller: u64, handler: u64) -> (r: Result<(), PayError>)
        requires
            old(self).wf(),
        ensures
            final(self).wf(),
            !old(self).is_money_handler(caller) ==> r == Err::<(), PayError>(
                PayError::NotMoneyHandler,
            ) && *final(self) == *old(self),
            old(self).is_money_handler(caller) ==> {
                &&& r == Ok::<(), PayError>(())
                &&& forall|b: u64|
                    final(self).money_handlers.has(b) == (old(self).money_handlers.has(b) || b
                        == handler)
                &&& final(self).money_processors == old(self).money_processors
                &&& final(self).owner == old(self).owner
                &&& final(self).accepted_token == old(self).accepted_token
                &&& final(self).same_payment_state(old(self))
                &&& final(self).balance == old(self).balance
            },
    {
        if !self.require_money_handler(caller) {
            return Err(PayError::NotMoneyHandler);
        }
        self.money_handlers.add(handler);
        Ok(())
    }

    /// Withdraw handler rights; withdrawing rights not held changes
    /// nothing. Only a handler (or the owner) may do so.
    pub fn remove_money_handler(&mut self, caller: u64, handler: u64) -> (r: Result<(), PayError>)
        requires
            old(self).wf(),
        ensures
            final(self).wf(),
            !old(self).is_money_handler(caller) ==> r == Err::<(), PayError>(
                PayError::NotMoneyHandler,
            ) && *final(self) == *old(self),
            old(self).is_money_handler(caller) ==> {
                &&& r == Ok::<(), PayError>(())
                &&& forall|b: u64|
                    final(self).money_handlers.has(b) == (old(self).money_handlers.has(b) && b
                        != handler)
                &&& final(self).money_processors == old(self).money_processors
                &&& final(self).owner == old(self).owner
                &&& final(self).accepted_token == old(self).accepted_token
                &&& final(self).same_payment_state(old(self))
                &&& final(self).balance == old(self).balance
            },
    {
        if !self.require_money_handler(caller) {
            return Err(PayError::NotMoneyHandler);
        }
        self.money_handlers.remove(handler);
        Ok(())
    }

    /// Grant processor rights; granting rights already held changes
    /// nothing. Processor membership is managed by handlers.
    pub fn add_money_processor(&mut self, caller: u64, processor: u64) -> (r: Result<
        (),
        PayError,
    >)
        requires
            old(self).wf(),
        ensures
            final(self).wf(),
            !old(self).is_money_handler(caller) ==> r == Err::<(), PayError>(
                PayError::NotMoneyHandler,
            ) && *final(self) == *old(self),
            old(self).is_money_handler(caller) ==> {
                &&& r == Ok::<(), PayError>(())
                &&& forall|b: u64|
                    final(self).money_processors.has(b) == (old(self).money_processors.has(b) || b
                        == processor)
                &&& final(self).money_handlers == old(self).money_handlers
                &&& final(self).owner == old(self).owner
                &&& final(self).accepted_token == old(self).accepted_token
                &&& final(self).same_payment_state(old(self))
                &&& final(self).balance == old(self).balance
            },
    {
        if !self.require_money_handler(caller) {
            return Err(PayError::NotMoneyHandler);
        }
        self.money_processors.add(processor);
        Ok(())
    }

    /// Withdraw processor rights; withdrawing rights not held changes
    /// nothing. Processor membership is managed by handlers.
    pub fn remove_money_processor(&mut self, caller: u64, processor: u64) -> (r: Result<
        (),
        PayError,
    >)
        requires
            old(self).wf(),
        ensures
            final(self).wf(),
            !old(self).is_money_handler(caller) ==> r == Err::<(), PayError>(
                PayError::NotMoneyHandler,
            ) && *final(self) == *old(self),
            old(self).is_money_handler(caller) ==> {
                &&& r == Ok::<(), PayError>(())
                &&& forall|b: u64|
                    final(self).money_processors.has(b) == (old(self).money_processors.has(b) && b
                        != processor)
                &&& final(self).money_handlers == old(self).money_handlers
                &&& final(self).owner == old(self).owner
                &&& final(self).accepted_token == old(self).accepted_token
                &&& final(self).same_payment_state(old(self))
                &&& final(self).balance == old(self).balance
            },
    {
        if !self.require_money_handler(caller) {
            return Err(PayError::NotMoneyHandler);
        }
        self.money_processors.remove(processor);
        Ok(())
    }

    /// Settle a batch of payments, strictly in the order given.
    ///
    /// The whole batch is refused while the held balance is zero. An id with
    /// no stored record is skipped, as is a record whose scheduled time is
    /// already below the clock. Each remaining record is checked against the
    /// running balance: if it cannot be covered, the batch stops there with
    /// an error, and everything settled earlier in the same call stays in
    /// force. A covered record has its amount handed to the transfer ledger,
    /// is rescheduled (recurring) or retired (one-off), and is notified to
    /// the event sink. The exact outcome is `process_batch` over the
    /// starting state.
    #[verifier::loop_isolation(false)]
    pub fn process_payments(
        &mut self,
        caller: u64,
        now: u64,
        payments_ids: &Vec<u64>,
        events: &mut MoneyEvents,
        transfers: &mut Vec<Transfer>,
    ) -> (r: Result<(), PayError>)
        requires
            old(self).wf(),
            forall|q1: int, q2: int|
                #![trigger payments_ids@[q1], payments_ids@[q2]]
                0 <= q1 < q2 < payments_ids@.len() ==> payments_ids@[q1] != payments_ids@[q2],
            forall|q: int|
                #![trigger payments_ids@[q]]
                0 <= q < payments_ids@.len() && has_key(old(self).payments@, payments_ids@[q])
                    && record_of(old(self).payments@, payments_ids@[q]).is_monthly ==> record_of(
                    old(self).payments@,
                    payments_ids@[q],
                ).scheduled_time + RECURRENT_PERIOD <= u64::MAX,
        ensures
            final(self).wf(),
            !old(self).is_money_processor(caller) ==> r == Err::<(), PayError>(
                PayError::NotMoneyProcessor,
            ) && *final(self) == *old(self) && final(events).entries() == old(events).entries()
                && final(transfers)@ == old(transfers)@,
            old(self).is_money_processor(caller) && old(self).balance == 0 ==> r == Err::<
                (),
                PayError,
            >(PayError::NoFundsAllocated) && *final(self) == *old(self) && final(events).entries()
                == old(events).entries() && final(transfers)@ == old(transfers)@,
            old(self).is_money_processor(caller) && old(self).balance > 0 ==> ({
                let m = process_batch(
                    BatchEnv {
                        recipients: old(self).recipients@,
                        token: old(self).accepted_token,
                        caller,
                        now,
                    },
                    old(self).payments@,
                    old(self).balance,
                    payments_ids@,
                );
                &&& final(self).payments@ == m.records
                &&& final(self).balance == m.balance
                &&& final(transfers)@ == old(transfers)@ + m.transfers
                &&& final(events).entries() == old(events).entries() + m.events
                &&& final(self).same_registries(old(self))
                &&& final(self).payments_index == old(self).payments_index
                &&& final(self).recipients@ == old(self).recipients@
                &&& final(self).recipient_id_index == old(self).recipient_id_index
                &&& r == (if m.failed {
                    Err::<(), PayError>(PayError::NotEnoughFunds)
                } else {
                    Ok::<(), PayError>(())
                })
            }),
    {
        if !self.require_money_processor(caller) {
            return Err(PayError::NotMoneyProcessor);
        }
        if self.balance == 0 {
            return Err(PayError::NoFundsAllocated);
        }
        let ghost env = BatchEnv {
            recipients: self.recipients@,
            token: self.accepted_token,
            caller,
            now,
        };
        let ghost rec0 = self.payments@;
        let ghost full = process_batch(env, rec0, self.balance, payments_ids@);
        let ghost t0 = transfers@;
        let ghost e0 = events.entries();
        let n = payments_ids.len();
        let mut i: usize = 0;
        let ghost mut k: int = 0;
        proof {
            assert(payments_ids@.skip(0) =~= payments_ids@);
            assert(full.transfers.skip(0) =~= full.transfers);
            assert(full.events.skip(0) =~= full.events);
            assert(transfers@ =~= t0 + full.transfers.take(0));
            assert(events.entries() =~= e0 + full.events.take(0));
        }
        while i < n
            invariant
                0 <= i <= n,
                0 <= k <= full.transfers.len(),
                k <= full.events.len(),
                self.wf(),
                self.owner == old(self).owner,
                self.accepted_token == old(self).accepted_token,
                self.money_handlers == old(self).money_handlers,
                self.money_processors == old(self).money_processors,
                self.payments_index == old(self).payments_index,
                self.recipients@ == old(self).recipients@,
                self.recipient_id_index == old(self).recipient_id_index,
                ({
                    let m = process_batch(
                        env,
                        self.payments@,
                        self.balance,
                        payments_ids@.skip(i as int),
                    );
                    &&& m.records == full.records
                    &&& m.balance == full.balance
                    &&& m.failed == full.failed
                    &&& m.transfers == full.transfers.skip(k)
                    &&& m.events == full.events.skip(k)
                }),
                transfers@ == t0 + full.transfers.take(k),
                events.entries() == e0 + full.events.take(k),
                forall|j: int|
                    i <= j < n && has_key(self.payments@, #[trigger] payments_ids@[j]) ==> (
                    has_key(rec0, payments_ids@[j]) && record_of(self.payments@, payments_ids@[j])
                        == record_of(rec0, payments_ids@[j])),
            decreases n - i,
        {
            let id = payments_ids[i];
            let ghost b = payments_ids@.skip(i as int);
            proof {
                assert(b[0] == payments_ids@[i as int]);
                assert(b.drop_first() =~= payments_ids@.skip(i as int + 1));
            }
            let found = find_payment(&self.payments, id);
            if let Some(idx) = found {
                let p = self.payments[idx].1;
                proof {
                    lemma_key_index_unique(self.payments@, idx as int, id);
                    assert(record_of(self.payments@, id) == p);
                }
                if !(p.scheduled_time < now) {
                    if self.balance < p.amount {
                        proof {
                            let m = process_batch(env, self.payments@, self.balance, b);
                            assert(m.failed && m.records == self.payments@ && m.balance
                                == self.balance);
                            assert(m.transfers =~= Seq::<Transfer>::empty());
                            assert(full.transfers.skip(k).len() == 0);
                            assert(full.transfers.take(k) =~= full.transfers);
                            assert(full.events.take(k) =~= full.events);
                        }
                        return Err(PayError::NotEnoughFunds);
                    }
                    let rid = p.recipient_id;
                    let rlen: usize = self.recipients.len();
                    proof {
                        assert(p == (#[trigger] self.payments@[idx as int]).1);
                        assert(1 <= rid && rid <= rlen);
                    }
                    let recipient = self.recipients[(rid - 1) as usize];
                    transfers.push(
                        Transfer { to: recipient, token: self.accepted_token, amount: p.amount },
                    );
                    let mut pay = p;
                    proof {
                        assert(has_key(self.payments@, payments_ids@[i as int]));
                        assert(record_of(rec0, id) == p);
                    }
                    pay.update_recurrence();
                    let ghost cur = self.payments@;
                    let ghost bal = self.balance;
                    if p.is_monthly {
                        self.payments[idx] = (id, pay);
                    } else {
                        self.payments.swap_remove(idx);
                    }
                    self.balance = self.balance - p.amount;
                    events.add_processed_payment_event(id, caller, &pay);
                    proof {
                        assert(self.payments@ == settle_records(cur, id));
                        lemma_settle_records_props(cur, id);
                        let m = process_batch(env, cur, bal, b);
                        let r2 = process_batch(
                            env,
                            settle_records(cur, id),
                            (bal - p.amount) as u128,
                            b.drop_first(),
                        );
                        let tr = Transfer {
                            to: crate::engine::recipient_addr(env.recipients, p.recipient_id),
                            token: env.token,
                            amount: p.amount,
                        };
                        let ev = EventRecord::PaymentProcessed {
                            payment_id: id,
                            processor: caller,
                            data: crate::engine::processed_data_of(p.after_recurrence()),
                        };
                        assert(recipient == crate::engine::recipient_addr(env.recipients, rid));
                        assert(m.transfers == seq![tr] + r2.transfers);
                        assert(m.events == seq![ev] + r2.events);
                        lemma_seq_step(full.transfers, k, tr, r2.transfers);
                        lemma_seq_step(full.events, k, ev, r2.events);
                        assert(transfers@ =~= t0 + full.transfers.take(k + 1));
                        assert(events.entries() =~= e0 + full.events.take(k + 1));
                        k = k + 1;
                        assert(self.wf()) by {
                            assert forall|q: int| 0 <= q < self.payments@.len() implies 1 <= (
                            #[trigger] self.payments@[q]).0 < self.payments_index && 1
                                <= self.payments@[q].1.recipient_id <= self.recipients@.len() by {
                                let k0 = choose|k0: int|
                                    0 <= k0 < cur.len() && (#[trigger] self.payments@[q]).0
                                        == cur[k0].0 && self.payments@[q].1.recipient_id
                                        == cur[k0].1.recipient_id;
                                assert(1 <= cur[k0].0 < self.payments_index);
                            }
                        }
                        assert forall|j: int|
                            i as int + 1 <= j < n && has_key(
                                self.payments@,
                                #[trigger] payments_ids@[j],
                            ) implies (has_key(rec0, payments_ids@[j]) && record_of(
                            self.payments@,
                            payments_ids@[j],
                        ) == record_of(rec0, payments_ids@[j])) by {
                            assert(payments_ids@[i as int] != payments_ids@[j]);
                        }
                    }
                } else {
                    proof {
                        assert(process_batch(env, self.payments@, self.balance, b)
                            == process_batch(
                            env,
                            self.payments@,
                            self.balance,
                            b.drop_first(),
                        ));
                    }
                }
            } else {
                proof {
                    assert(!has_key(self.payments@, id));
                    assert(process_batch(env, self.payments@, self.balance, b) == process_batch(
                        env,
                        self.payments@,
                        self.balance,
                        b.drop_first(),
                    ));
                }
            }
            i = i + 1;
        }
        proof {
            assert(payments_ids@.skip(n as int) =~= Seq::<u64>::empty());
            let m = process_batch(env, self.payments@, self.balance, payments_ids@.skip(n as int));
            assert(m.records == self.payments@ && m.balance == self.balance && !m.failed);
            assert(full.transfers.skip(k).len() == 0);
            assert(full.transfers.take(k) =~= full.transfers);
            assert(full.events.take(k) =~= full.events);
        }
        Ok(())
    }

    /// The ids of all outstanding payments, in storage order.
    pub fn get_all_payments_ids(&self) -> (r: Vec<u64>)
        ensures
            r@.len() == self.payments@.len(),
            forall|k: int| 0 <= k < r@.len() ==> r@[k] == (#[trigger] self.payments@[k]).0,
    {
        let n = self.payments.len();
        let mut ids: Vec<u64> = Vec::new();
        let mut i: usize = 0;
        while i < n
            invariant
                0 <= i <= n,
                n == self.payments@.len(),
                ids@.len() == i,
                forall|k: int| 0 <= k < i ==> ids@[k] == (#[trigger] self.payments@[k]).0,
            decreases n - i,
        {
            ids.push(self.payments[i].0);
            i = i + 1;
        }
        ids
    }

    /// The outstanding record stored under an id, if any.
    pub fn get_payment_by_id(&self, id: u64) -> (r: Option<Payment>)
        requires
            self.wf(),
        ensures
            match r {
                Some(p) => has_key(self.payments@, id) && p == record_of(self.payments@, id),
                None => !has_key(self.payments@, id),
            },
    {
        match find_payment(&self.payments, id) {
            Some(i) => {
                proof {
                    lemma_key_index_unique(self.payments@, i as int, id);
                }
                Some(self.payments[i].1)
            },
            None => None,
        }
    }
}

/// Position of a payment id in the store, if it is there.
fn find_payment(v: &Vec<(u64, Payment)>, id: u64) -> (r: Option<usize>)
    ensures
        match r {
            Some(i) => i < v@.len() && v@[i as int].0 == id,
            None => !has_key(v@, id),
        },
{
    let n = v.len();
    let mut i: usize = 0;
    while i < n
        invariant
            0 <= i <= n,
            n == v@.len(),
            forall|q: int| 0 <= q < i ==> (#[trigger] v@[q]).0 != id,
        decreases n - i,
    {
        if v[i].0 == id {
            return Some(i);
        }
        i = i + 1;
    }
    None
}

/// One more element of a prefix: membership in the prefix through `j`, the
/// successor of `i`, is membership in the prefix through `i` or equality
/// with the element at `i`.
proof fn lemma_contains_take_step(s: Seq<u64>, i: int, j: int)
    requires
        0 <= i < s.len(),
        j == i + 1,
    ensures
        forall|b: u64| #[trigger] s.take(j).contains(b) == (s.take(i).contains(b) || s[i] == b),
{
    let t1 = s.take(j);
    let t0 = s.take(i);
    assert forall|b: u64| #[trigger] s.take(j).contains(b) == (s.take(i).contains(b) || s[i]
        == b) by {
        if t1.contains(b) {
            let k = choose|k: int| 0 <= k < t1.len() && t1[k] == b;
            if k < i {
                assert(t0[k] == b);
            } else {
                assert(s[i] == b);
            }
        }
        if t0.contains(b) {
            let k = choose|k: int| 0 <= k < t0.len() && t0[k] == b;
            assert(t1[k] == b);
        }
        if s[i] == b {
            assert(t1[i] == b);
        }
    }
}

/// Under a duplicate-free directory, the position of an address is the
/// position.
proof fn lemma_addr_index_unique(s: Seq<u64>, i: int, a: u64)
    requires
        forall|p: int, q: int| #![trigger s[p], s[q]] 0 <= p < q < s.len() ==> s[p] != s[q],
        0 <= i < s.len(),
        s[i] == a,
    ensures
        s.contains(a),
        addr_index(s, a) == i,
{
    assert(s.contains(a));
    let j = addr_index(s, a);
    if j < i {
        assert(s[j] != s[i]);
    } else if j > i {
        assert(s[i] != s[j]);
    }
}

/// Payment id freshness: in a well-formed ledger the next id to assign is
/// not in the store and lies strictly above every outstanding id, so ids
/// handed out by payment registration are strictly increasing and never
/// reused, retirement notwithstanding: the counter never runs backwards.
pub proof fn lemma_payment_id_freshness(c: &PaySyncContract)
    requires
        c.wf(),
    ensures
        !has_key(c.payments@, c.payments_index),
        forall|k: int|
            0 <= k < c.payments@.len() ==> (#[trigger] c.payments@[k]).0 < c.payments_index,
{
    if has_key(c.payments@, c.payments_index) {
        let k = choose|k: int|
            0 <= k < c.payments@.len() && (#[trigger] c.payments@[k]).0 == c.payments_index;
        assert(c.payments@[k].0 < c.payments_index);
    }
}

/// Recipient id stability: one lookup-or-create binds the address, so a
/// repeated lookup-or-create for the same address leaves the directory
/// unchanged and yields the same id; the directory (and with it the id
/// counter) grows by exactly one entry on first creation and not at all
/// afterwards.
pub proof fn lemma_recipient_id_stability(recipients: Seq<u64>, address: u64)
    ensures
        ({
            let r1 = recipients_after_get_or_add(recipients, address);
            let r2 = recipients_after_get_or_add(r1, address);
            &&& r1.contains(address)
            &&& r2 == r1
            &&& recipient_id_of(r2, address) == recipient_id_of(r1, address)
            &&& recipients.contains(address) ==> r1 == recipients
            &&& !recipients.contains(address) ==> r1.len() == recipients.len() + 1
        }),
{
    let r1 = recipients_after_get_or_add(recipients, address);
    if !recipients.contains(address) {
        assert(r1[recipients.len() as int] == address);
        assert(r1.contains(address));
    }
}

} // verus!
