use vstd::prelude::*;
use crate::events::{EventRecord, ProcessedPaymentData};
use crate::payments::{Payment, RECURRENT_PERIOD};

verus! {

/// An instruction to the value-transfer ledger: pay `amount` of `token` to
/// the identity `to`. The engine only issues these; performing them is the
/// surrounding environment's task.
#[derive(Clone, Copy, PartialEq, Eq, Structural, Debug)]
pub struct Transfer {
    pub to: u64,
    pub token: u64,
    pub amount: u128,
}

/// The fixed surroundings of one settlement batch: the recipient directory
/// (address of id `i + 1` at position `i`), the accepted value unit, the
/// calling processor, and the current clock value.
#[verifier::ext_equal]
pub struct BatchEnv {
    pub recipients: Seq<u64>,
    pub token: u64,
    pub caller: u64,
    pub now: u64,
}

/// Everything one settlement batch produces: the store and balance it leaves
/// behind, the transfers it instructed, the notifications it emitted, and
/// whether it stopped early for want of funds.
#[verifier::ext_equal]
pub struct BatchResult {
    pub records: Seq<(u64, Payment)>,
    pub balance: u128,
    pub transfers: Seq<Transfer>,
    pub events: Seq<EventRecord>,
    pub failed: bool,
}

/// No payment id occurs twice in the store.
pub open spec fn distinct_keys(s: Seq<(u64, Payment)>) -> bool {
    forall|i: int, j: int| #![trigger s[i], s[j]] 0 <= i < j < s.len() ==> s[i].0 != s[j].0
}

/// The store holds a record under this payment id.
pub open spec fn has_key(s: Seq<(u64, Payment)>, id: u64) -> bool {
    exists|i: int| 0 <= i < s.len() && (#[trigger] s[i]).0 == id
}

/// Position of the record with this payment id (meaningful under
/// `distinct_keys` and `has_key`).
pub open spec fn key_index(s: Seq<(u64, Payment)>, id: u64) -> int {
    choose|i: int| 0 <= i < s.len() && (#[trigger] s[i]).0 == id
}

/// The record stored under this payment id.
pub open spec fn record_of(s: Seq<(u64, Payment)>, id: u64) -> Payment {
    s[key_index(s, id)].1
}

/// Address bound to a recipient id; 0 is the unassigned sentinel.
pub open spec fn recipient_addr(recipients: Seq<u64>, rid: u64) -> u64 {
    if 1 <= rid <= recipients.len() {
        recipients[rid - 1]
    } else {
        0
    }
}

/// The settlement notification payload taken from a settled record.
pub open spec fn processed_data_of(p: Payment) -> ProcessedPaymentData {
    ProcessedPaymentData { amount: p.amount, scheduled_time: p.scheduled_time, is_monthly: p.is_monthly }
}

/// The store after one record settles: a recurring record is rescheduled in
/// place, a one-off record is retired, the last record taking its slot.
pub open spec fn settle_records(s: Seq<(u64, Payment)>, id: u64) -> Seq<(u64, Payment)> {
    let i = key_index(s, id);
    if s[i].1.is_monthly {
        s.update(i, (id, s[i].1.after_recurrence()))
    } else {
        s.update(i, s.last()).drop_last()
    }
}

/// The batch-settlement state machine, one batch item per unfolding.
///
/// Items are taken strictly in batch order. An id with no stored record is
/// skipped, as is a record whose scheduled time is already below the clock.
/// A record the running balance cannot cover stops the batch at once, with
/// everything settled so far left in force. A covered record is disbursed,
/// rescheduled or retired, and notified.
pub open spec fn process_batch(
    env: BatchEnv,
    records: Seq<(u64, Payment)>,
    balance: u128,
    batch: Seq<u64>,
) -> BatchResult
    decreases batch.len(),
{
    if batch.len() == 0 {
        BatchResult {
            records,
            balance,
            transfers: Seq::empty(),
            events: Seq::empty(),
            failed: false,
        }
    } else {
        let id = batch[0];
        let rest = batch.drop_first();
        if !has_key(records, id) {
            process_batch(env, records, balance, rest)
        } else {
            let p = record_of(records, id);
            if p.scheduled_time < env.now {
                process_batch(env, records, balance, rest)
            } else if balance < p.amount {
                BatchResult {
                    records,
                    balance,
                    transfers: Seq::empty(),
                    events: Seq::empty(),
                    failed: true,
                }
            } else {
                let settled = p.after_recurrence();
                let r = process_batch(
                    env,
                    settle_records(records, id),
                    (balance - p.amount) as u128,
                    rest,
                );
                BatchResult {
                    records: r.records,
                    balance: r.balance,
                    transfers: seq![
                        Transfer {
                            to: recipient_addr(env.recipients, p.recipient_id),
                            token: env.token,
                            amount: p.amount,
                        }
                    ] + r.transfers,
                    events: seq![
                        EventRecord::PaymentProcessed {
                            payment_id: id,
                            processor: env.caller,
                            data: processed_data_of(settled),
                        }
                    ] + r.events,
                    failed: r.failed,
                }
            }
        }
    }
}

/// Total amount moved by a sequence of transfers.
pub open spec fn sum_amounts(ts: Seq<Transfer>) -> int
    decreases ts.len(),
{
    if ts.len() == 0 {
        0
    } else {
        ts[0].amount + sum_amounts(ts.drop_first())
    }
}

/// Under distinct keys, the position of a key is the position.
pub proof fn lemma_key_index_unique(s: Seq<(u64, Payment)>, i: int, id: u64)
    requires
        distinct_keys(s),
        0 <= i < s.len(),
        s[i].0 == id,
    ensures
        has_key(s, id),
        key_index(s, id) == i,
{
    assert(has_key(s, id));
    let j = key_index(s, id);
    if j < i {
        assert(s[j].0 != s[i].0);
    } else if j > i {
        assert(s[i].0 != s[j].0);
    }
}

/// What one settlement does to the store besides the settled record itself:
/// keys stay distinct, no record is invented, and every other record is left
/// exactly where it can be found again, unchanged.
pub proof fn lemma_settle_records_props(s: Seq<(u64, Payment)>, id: u64)
    requires
        distinct_keys(s),
        has_key(s, id),
    ensures
        distinct_keys(settle_records(s, id)),
        forall|k: int| 0 <= k < settle_records(s, id).len()
            ==> exists|k0: int| 0 <= k0 < s.len()
                && (#[trigger] settle_records(s, id)[k]).0 == s[k0].0
                && settle_records(s, id)[k].1.recipient_id == s[k0].1.recipient_id,
        forall|b: u64| b != id ==> has_key(settle_records(s, id), b) == has_key(s, b),
        forall|b: u64| b != id && has_key(s, b)
            ==> record_of(settle_records(s, id), b) == record_of(s, b),
{
    let i = key_index(s, id);
    let s2 = settle_records(s, id);
    let n = s.len() as int;
    assert(0 <= i < n && s[i].0 == id);
    if s[i].1.is_monthly {
        assert forall|k: int| 0 <= k < s2.len() implies exists|k0: int|
            0 <= k0 < s.len() && (#[trigger] s2[k]).0 == s[k0].0
                && s2[k].1.recipient_id == s[k0].1.recipient_id by {
            assert(s2[k].0 == s[k].0 && s2[k].1.recipient_id == s[k].1.recipient_id);
        }
        assert forall|p: int, q: int| #![trigger s2[p], s2[q]] 0 <= p < q < s2.len()
            implies s2[p].0 != s2[q].0 by {
            assert(s2[p].0 == s[p].0 && s2[q].0 == s[q].0);
            assert(s[p].0 != s[q].0);
        }
        assert forall|b: u64| b != id implies has_key(s2, b) == has_key(s, b) by {
            if has_key(s2, b) {
                let k = choose|k: int| 0 <= k < s2.len() && (#[trigger] s2[k]).0 == b;
                assert(s[k].0 == b);
            }
            if has_key(s, b) {
                let k = choose|k: int| 0 <= k < s.len() && (#[trigger] s[k]).0 == b;
                assert(k != i);
                assert(s2[k].0 == b);
            }
        }
        assert forall|b: u64| b != id && has_key(s, b) implies record_of(s2, b) == record_of(
            s,
            b,
        ) by {
            let k = choose|k: int| 0 <= k < s.len() && (#[trigger] s[k]).0 == b;
            lemma_key_index_unique(s, k, b);
            assert(s2[k].0 == b);
            assert(distinct_keys(s2)) by {
                assert forall|p: int, q: int| #![trigger s2[p], s2[q]] 0 <= p < q < s2.len()
                    implies s2[p].0 != s2[q].0 by {
                    assert(s2[p].0 == s[p].0 && s2[q].0 == s[q].0);
                    assert(s[p].0 != s[q].0);
                }
            }
            lemma_key_index_unique(s2, k, b);
            assert(k != i);
            assert(s2[k].1 == s[k].1);
        }
    } else {
        assert(s2 == s.update(i, s.last()).drop_last());
        assert(s2.len() == n - 1);
        assert forall|k: int| 0 <= k < n - 1 implies s2[k] == (if k == i {
            s[n - 1]
        } else {
            s[k]
        }) by {}
        assert forall|k: int| 0 <= k < s2.len() implies exists|k0: int|
            0 <= k0 < s.len() && (#[trigger] s2[k]).0 == s[k0].0
                && s2[k].1.recipient_id == s[k0].1.recipient_id by {
            if k == i {
                assert(s2[k] == s[n - 1]);
            } else {
                assert(s2[k] == s[k]);
            }
        }
        assert forall|p: int, q: int| #![trigger s2[p], s2[q]] 0 <= p < q < s2.len()
            implies s2[p].0 != s2[q].0 by {
            if p == i {
                assert(s2[p] == s[n - 1] && s2[q] == s[q]);
                assert(s[q].0 != s[n - 1].0);
            } else if q == i {
                assert(s2[q] == s[n - 1] && s2[p] == s[p]);
                assert(s[p].0 != s[n - 1].0);
            } else {
                assert(s[p].0 != s[q].0);
            }
        }
        assert forall|b: u64| b != id implies has_key(s2, b) == has_key(s, b) by {
            if has_key(s2, b) {
                let k = choose|k: int| 0 <= k < s2.len() && (#[trigger] s2[k]).0 == b;
                if k == i {
                    assert(s[n - 1].0 == b);
                } else {
                    assert(s[k].0 == b);
                }
            }
            if has_key(s, b) {
                let k = choose|k: int| 0 <= k < s.len() && (#[trigger] s[k]).0 == b;
                assert(k != i);
                if k == n - 1 {
                    assert(i < n - 1) by {
                        if i == n - 1 {
                            assert(s[i].0 == id && s[k].0 == b);
                        }
                    }
                    assert(s2[i] == s[n - 1]);
                } else {
                    assert(s2[k] == s[k]);
                }
            }
        }
        assert forall|b: u64| b != id && has_key(s, b) implies record_of(s2, b) == record_of(
            s,
            b,
        ) by {
            let k = choose|k: int| 0 <= k < s.len() && (#[trigger] s[k]).0 == b;
            lemma_key_index_unique(s, k, b);
            assert(k != i);
            if k == n - 1 {
                assert(s2[i] == s[n - 1]);
                lemma_key_index_unique(s2, i, b);
            } else {
                assert(s2[k] == s[k]);
                lemma_key_index_unique(s2, k, b);
            }
        }
    }
}

/// Recurrence law: when a stored record settles, a recurring record stays in
/// the store with its scheduled time advanced by exactly one recurrence
/// period and nothing else changed, and a one-off record leaves the store.
pub proof fn lemma_recurrence_law(s: Seq<(u64, Payment)>, id: u64)
    requires
        distinct_keys(s),
        has_key(s, id),
    ensures
        record_of(s, id).is_monthly && record_of(s, id).scheduled_time + RECURRENT_PERIOD
            <= u64::MAX ==> has_key(settle_records(s, id), id)
            && record_of(settle_records(s, id), id).scheduled_time
                == record_of(s, id).scheduled_time + RECURRENT_PERIOD
            && record_of(settle_records(s, id), id).amount == record_of(s, id).amount
            && record_of(settle_records(s, id), id).recipient_id == record_of(s, id).recipient_id
            && record_of(settle_records(s, id), id).is_monthly,
        !record_of(s, id).is_monthly ==> !has_key(settle_records(s, id), id),
{
    let i = key_index(s, id);
    let s2 = settle_records(s, id);
    let n = s.len() as int;
    assert(0 <= i < n && s[i].0 == id);
    lemma_settle_records_props(s, id);
    if s[i].1.is_monthly {
        assert(s2[i].0 == id);
        lemma_key_index_unique(s2, i, id);
        assert(s2[i].1 == s[i].1.after_recurrence());
    } else {
        if has_key(s2, id) {
            let k = choose|k: int| 0 <= k < s2.len() && (#[trigger] s2[k]).0 == id;
            if k == i {
                assert(s2[k] == s[n - 1]);
                assert(s[n - 1].0 == id);
                assert((i as int) < n - 1);
                assert(s[i].0 != s[n - 1].0);
            } else {
                assert(s2[k] == s[k]);
                assert(s[k].0 == id);
                if k < i {
                    assert(s[k].0 != s[i].0);
                } else {
                    assert(s[i].0 != s[k].0);
                }
            }
        }
    }
}

/// A step through a sequence: if what remains past `k` starts with `x`, then
/// `x` stands at `k`, one more step remains past `k + 1`, and the prefix
/// through `k + 1` is the old prefix with `x` appended.
pub proof fn lemma_seq_step<A>(s: Seq<A>, k: int, x: A, rest: Seq<A>)
    requires
        0 <= k <= s.len(),
        s.skip(k) == seq![x] + rest,
    ensures
        k < s.len(),
        s[k] == x,
        s.skip(k + 1) == rest,
        s.take(k + 1) == s.take(k).push(x),
{
    assert(s.skip(k).len() == s.len() - k);
    assert((seq![x] + rest).len() == 1 + rest.len());
    assert(s.skip(k)[0] == s[k]);
    assert((seq![x] + rest)[0] == x);
    assert(s.skip(k + 1) =~= rest) by {
        assert forall|j: int| 0 <= j < s.len() - k - 1 implies s.skip(k + 1)[j] == rest[j] by {
            assert(s.skip(k + 1)[j] == s[k + 1 + j]);
            assert(s.skip(k)[j + 1] == s[k + 1 + j]);
            assert((seq![x] + rest)[j + 1] == rest[j]);
        }
    }
    assert(s.take(k + 1) =~= s.take(k).push(x)) by {
        assert forall|j: int| 0 <= j < k + 1 implies s.take(k + 1)[j] == s.take(k).push(x)[j]
            by {
            if j < k {
            } else {
                assert(s.take(k + 1)[j] == s[k]);
            }
        }
    }
}

/// Batch balance conservation: a batch's ending balance is its starting
/// balance less exactly the sum of the amounts it transferred, and that sum
/// never exceeds the starting balance; an item that fails the balance check
/// transfers nothing.
pub proof fn lemma_batch_balance_conservation(
    env: BatchEnv,
    records: Seq<(u64, Payment)>,
    balance: u128,
    batch: Seq<u64>,
)
    ensures
        ({
            let r = process_batch(env, records, balance, batch);
            &&& 0 <= sum_amounts(r.transfers) <= balance
            &&& r.balance == balance - sum_amounts(r.transfers)
        }),
    decreases batch.len(),
{
    let r = process_batch(env, records, balance, batch);
    if batch.len() == 0 {
        assert(r.transfers.len() == 0);
    } else {
        let id = batch[0];
        let rest = batch.drop_first();
        if !has_key(records, id) {
            lemma_batch_balance_conservation(env, records, balance, rest);
        } else {
            let p = record_of(records, id);
            if p.scheduled_time < env.now {
                lemma_batch_balance_conservation(env, records, balance, rest);
            } else if balance < p.amount {
                assert(r.transfers.len() == 0);
            } else {
                let b2 = (balance - p.amount) as u128;
                let r2 = process_batch(env, settle_records(records, id), b2, rest);
                lemma_batch_balance_conservation(env, settle_records(records, id), b2, rest);
                let t = Transfer {
                    to: recipient_addr(env.recipients, p.recipient_id),
                    token: env.token,
                    amount: p.amount,
                };
                assert(r.transfers == seq![t] + r2.transfers);
                assert((seq![t] + r2.transfers)[0] == t);
                assert((seq![t] + r2.transfers).drop_first() =~= r2.transfers);
                assert(sum_amounts(r.transfers) == p.amount + sum_amounts(r2.transfers));
            }
        }
    }
}

} // verus!
