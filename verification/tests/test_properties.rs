use pay_sync::engine::Transfer;
use pay_sync::events::{EventRecord, MoneyEvents, ProcessedPaymentData};
use pay_sync::payments::{Payment, RECURRENT_PERIOD};
use pay_sync::{PayError, PaySyncContract};

const OWNER: u64 = 1;
const TKN: u64 = 1001;
const RECIPIENT: u64 = 77;

fn setup() -> (PaySyncContract, MoneyEvents, Vec<Transfer>) {
    let handlers = vec![OWNER];
    let processors = vec![OWNER];
    let contract = PaySyncContract::init(OWNER, TKN, &handlers, &processors);
    (contract, MoneyEvents::new(), Vec::new())
}

#[test]
fn test_recurrent_period_value() {
    assert_eq!(RECURRENT_PERIOD, 30 * 24 * 60 * 60);
    assert_eq!(RECURRENT_PERIOD, 2_592_000);
}

#[test]
fn test_update_recurrence_monthly() {
    let mut payment = Payment {
        recipient_id: 1,
        amount: 5,
        scheduled_time: 100,
        is_monthly: true,
    };
    payment.update_recurrence();
    assert_eq!(payment.scheduled_time, 100 + RECURRENT_PERIOD);
    assert_eq!(payment.amount, 5);
    assert!(payment.is_monthly);
}

#[test]
fn test_update_recurrence_one_off() {
    let mut payment = Payment {
        recipient_id: 1,
        amount: 5,
        scheduled_time: 100,
        is_monthly: false,
    };
    payment.update_recurrence();
    assert_eq!(payment.scheduled_time, 100);
}

#[test]
fn test_recipient_id_stability() {
    let (mut contract, _events, _transfers) = setup();
    let first = contract.get_or_add_recipient_id(RECIPIENT);
    assert_eq!(first, 1);
    assert_eq!(contract.recipient_id_index, 2);
    let second = contract.get_or_add_recipient_id(RECIPIENT);
    assert_eq!(second, first);
    assert_eq!(contract.recipient_id_index, 2);
    let other = contract.get_or_add_recipient_id(RECIPIENT + 1);
    assert_eq!(other, 2);
    assert_eq!(contract.recipient_id_index, 3);
}

#[test]
fn test_payment_id_monotonicity() {
    let (mut contract, mut events, mut transfers) = setup();
    contract.top_up(OWNER, TKN, 500, &mut events).unwrap();
    let first = contract
        .add_payment(OWNER, RECIPIENT, 100, 50, false, &mut events)
        .unwrap();
    assert_eq!(first, 1);
    // Retire payment 1 by settling it (one-off, due under the inverted check).
    contract
        .process_payments(OWNER, 11, &vec![1], &mut events, &mut transfers)
        .unwrap();
    assert!(contract.get_payment_by_id(1).is_none());
    // The next id is still fresh: 1 is never handed out again.
    let second = contract
        .add_payment(OWNER, RECIPIENT, 100, 50, false, &mut events)
        .unwrap();
    assert_eq!(second, 2);
    assert!(second > first);
    assert_eq!(contract.payments_index, 3);
}

#[test]
fn test_recurrence_law_monthly_and_one_off() {
    let (mut contract, mut events, mut transfers) = setup();
    contract.top_up(OWNER, TKN, 1_000, &mut events).unwrap();
    let monthly = contract
        .add_payment(OWNER, RECIPIENT, 100, 100, true, &mut events)
        .unwrap();
    let one_off = contract
        .add_payment(OWNER, RECIPIENT, 100, 100, false, &mut events)
        .unwrap();
    contract
        .process_payments(OWNER, 11, &vec![monthly, one_off], &mut events, &mut transfers)
        .unwrap();
    // The recurring record stays outstanding, advanced by exactly one period.
    let advanced = contract.get_payment_by_id(monthly).unwrap();
    assert_eq!(advanced.scheduled_time, 100 + RECURRENT_PERIOD);
    assert!(advanced.is_monthly);
    assert!(contract.get_all_payments_ids().contains(&monthly));
    // The one-off record is gone.
    assert!(contract.get_payment_by_id(one_off).is_none());
    assert!(!contract.get_all_payments_ids().contains(&one_off));
}

#[test]
fn test_batch_balance_conservation() {
    let (mut contract, mut events, mut transfers) = setup();
    contract.top_up(OWNER, TKN, 1_000, &mut events).unwrap();
    contract
        .add_payment(OWNER, RECIPIENT, 300, 50, false, &mut events)
        .unwrap();
    contract
        .add_payment(OWNER, RECIPIENT + 1, 450, 60, false, &mut events)
        .unwrap();
    contract
        .process_payments(OWNER, 11, &vec![1, 2], &mut events, &mut transfers)
        .unwrap();
    let settled: u128 = transfers.iter().map(|t| t.amount).sum();
    assert_eq!(settled, 750);
    assert_eq!(contract.balance, 1_000 - 750);
    assert_eq!(transfers[0], Transfer { to: RECIPIENT, token: TKN, amount: 300 });
    assert_eq!(transfers[1], Transfer { to: RECIPIENT + 1, token: TKN, amount: 450 });
}

#[test]
fn test_authorization_gating() {
    let (mut contract, mut events, mut transfers) = setup();
    contract.top_up(OWNER, TKN, 1_000, &mut events).unwrap();
    contract
        .add_payment(OWNER, RECIPIENT, 300, 50, false, &mut events)
        .unwrap();
    let stranger: u64 = 999;
    let events_before = events.len();
    let balance_before = contract.balance;

    assert_eq!(
        contract.top_up(stranger, TKN, 10, &mut events),
        Err(PayError::NotMoneyHandler)
    );
    assert_eq!(
        contract.add_payment(stranger, RECIPIENT, 1, 1, false, &mut events),
        Err(PayError::NotMoneyHandler)
    );
    assert_eq!(
        contract.process_payments(stranger, 11, &vec![1], &mut events, &mut transfers),
        Err(PayError::NotMoneyProcessor)
    );
    assert_eq!(
        contract.add_money_handler(stranger, stranger),
        Err(PayError::NotMoneyHandler)
    );
    assert_eq!(
        contract.remove_money_handler(stranger, OWNER),
        Err(PayError::NotMoneyHandler)
    );
    assert_eq!(
        contract.add_money_processor(stranger, stranger),
        Err(PayError::NotMoneyHandler)
    );
    assert_eq!(
        contract.remove_money_processor(stranger, OWNER),
        Err(PayError::NotMoneyHandler)
    );

    assert_eq!(contract.balance, balance_before);
    assert_eq!(contract.payments_index, 2);
    assert_eq!(contract.recipient_id_index, 2);
    assert_eq!(contract.get_all_payments_ids(), vec![1]);
    assert_eq!(events.len(), events_before);
    assert!(transfers.is_empty());
    assert_eq!(
        PayError::NotMoneyHandler.message(),
        "Caller is not a money handler"
    );
    assert_eq!(
        PayError::NotMoneyProcessor.message(),
        "Caller is not a money processor"
    );
}

#[test]
fn test_scenario_initialize_top_up_settle() {
    let (mut contract, mut events, mut transfers) = setup();
    contract.top_up(OWNER, TKN, 200_000, &mut events).unwrap();
    assert_eq!(contract.balance, 200_000);
    let payment_id = contract
        .add_payment(OWNER, RECIPIENT, 100_000, 100, false, &mut events)
        .unwrap();
    assert_eq!(payment_id, 1);
    let recipient_id = contract.get_payment_by_id(1).unwrap().recipient_id;
    assert_eq!(recipient_id, 1);
    // At clock 11 the record's time 100 fails the `scheduled_time < now`
    // skip condition, so it settles.
    assert_eq!(
        contract.process_payments(OWNER, 11, &vec![1], &mut events, &mut transfers),
        Ok(())
    );
    assert_eq!(contract.balance, 100_000);
    assert!(contract.get_all_payments_ids().is_empty());
}

#[test]
fn test_scenario_same_recipient_two_payments() {
    let (mut contract, mut events, _transfers) = setup();
    let first = contract
        .add_payment(OWNER, RECIPIENT, 100_000, 100, false, &mut events)
        .unwrap();
    let second = contract
        .add_payment(OWNER, RECIPIENT, 100_000, 100, false, &mut events)
        .unwrap();
    let p1 = contract.get_payment_by_id(first).unwrap();
    let p2 = contract.get_payment_by_id(second).unwrap();
    assert_eq!(p1.recipient_id, p2.recipient_id);
    assert!(second > first);
    assert_eq!(contract.get_all_payments_ids().len(), 2);
}

#[test]
fn test_scenario_partial_batch_stands() {
    let (mut contract, mut events, mut transfers) = setup();
    contract.top_up(OWNER, TKN, 100_000, &mut events).unwrap();
    contract
        .add_payment(OWNER, RECIPIENT, 100_000, 100, false, &mut events)
        .unwrap();
    contract
        .add_payment(OWNER, RECIPIENT, 5_000, 100, false, &mut events)
        .unwrap();
    // Item 1 swallows the entire balance; item 2 then fails, but item 1's
    // settlement stays in force.
    let outcome = contract.process_payments(OWNER, 11, &vec![1, 2], &mut events, &mut transfers);
    assert_eq!(outcome, Err(PayError::NotEnoughFunds));
    assert_eq!(contract.balance, 0);
    assert!(contract.get_payment_by_id(1).is_none());
    assert!(contract.get_payment_by_id(2).is_some());
    assert_eq!(transfers.len(), 1);
    assert_eq!(transfers[0].amount, 100_000);
}

#[test]
fn test_invalid_token() {
    let (mut contract, mut events, _transfers) = setup();
    let outcome = contract.top_up(OWNER, TKN + 1, 5, &mut events);
    assert_eq!(outcome, Err(PayError::InvalidToken));
    assert_eq!(outcome.unwrap_err().message(), "Invalid token");
    assert_eq!(contract.balance, 0);
    assert_eq!(events.len(), 0);
}

#[test]
fn test_no_funds_allocated() {
    let (mut contract, mut events, mut transfers) = setup();
    contract
        .add_payment(OWNER, RECIPIENT, 10, 100, false, &mut events)
        .unwrap();
    let outcome = contract.process_payments(OWNER, 11, &vec![1], &mut events, &mut transfers);
    assert_eq!(outcome, Err(PayError::NoFundsAllocated));
    assert_eq!(
        outcome.unwrap_err().message(),
        "No funds allocated to contract"
    );
    assert!(contract.get_payment_by_id(1).is_some());
}

#[test]
fn test_already_due_record_is_skipped() {
    let (mut contract, mut events, mut transfers) = setup();
    contract.top_up(OWNER, TKN, 1_000, &mut events).unwrap();
    contract
        .add_payment(OWNER, RECIPIENT, 100, 5, false, &mut events)
        .unwrap();
    let events_before = events.len();
    // Time 5 is below the clock 11, so the record is skipped: no transfer,
    // no event, no error, and it stays outstanding.
    assert_eq!(
        contract.process_payments(OWNER, 11, &vec![1], &mut events, &mut transfers),
        Ok(())
    );
    assert_eq!(contract.balance, 1_000);
    assert!(transfers.is_empty());
    assert_eq!(events.len(), events_before);
    assert!(contract.get_payment_by_id(1).is_some());
}

#[test]
fn test_unknown_id_is_skipped() {
    let (mut contract, mut events, mut transfers) = setup();
    contract.top_up(OWNER, TKN, 1_000, &mut events).unwrap();
    assert_eq!(
        contract.process_payments(OWNER, 11, &vec![42], &mut events, &mut transfers),
        Ok(())
    );
    assert_eq!(contract.balance, 1_000);
    assert!(transfers.is_empty());
}

#[test]
fn test_event_log_contents() {
    let (mut contract, mut events, mut transfers) = setup();
    contract.top_up(OWNER, TKN, 1_000, &mut events).unwrap();
    contract
        .add_payment(OWNER, RECIPIENT, 300, 100, true, &mut events)
        .unwrap();
    contract
        .process_payments(OWNER, 11, &vec![1], &mut events, &mut transfers)
        .unwrap();
    assert_eq!(events.len(), 3);
    assert_eq!(
        events.entry_at(0),
        EventRecord::TopUp { caller: OWNER, amount: 1_000, token: TKN }
    );
    assert_eq!(
        events.entry_at(1),
        EventRecord::PaymentAdded {
            recipient_id: 1,
            handler: OWNER,
            payment: Payment {
                recipient_id: 1,
                amount: 300,
                scheduled_time: 100,
                is_monthly: true,
            },
        }
    );
    // The settlement notification carries the record as rescheduled.
    assert_eq!(
        events.entry_at(2),
        EventRecord::PaymentProcessed {
            payment_id: 1,
            processor: OWNER,
            data: ProcessedPaymentData {
                amount: 300,
                scheduled_time: 100 + RECURRENT_PERIOD,
                is_monthly: true,
            },
        }
    );
}

#[test]
fn test_whitelist_management() {
    let (mut contract, mut events, _transfers) = setup();
    let helper: u64 = 500;
    // Not yet a handler.
    assert_eq!(
        contract.top_up(helper, TKN, 5, &mut events),
        Err(PayError::NotMoneyHandler)
    );
    contract.add_money_handler(OWNER, helper).unwrap();
    // Granting twice is a no-op.
    contract.add_money_handler(OWNER, helper).unwrap();
    assert_eq!(contract.top_up(helper, TKN, 5, &mut events), Ok(()));
    // A handler may manage processors.
    let runner: u64 = 600;
    contract.add_money_processor(helper, runner).unwrap();
    let mut transfers: Vec<Transfer> = Vec::new();
    assert_eq!(
        contract.process_payments(runner, 11, &vec![], &mut events, &mut transfers),
        Ok(())
    );
    contract.remove_money_processor(helper, runner).unwrap();
    assert_eq!(
        contract.process_payments(runner, 11, &vec![], &mut events, &mut transfers),
        Err(PayError::NotMoneyProcessor)
    );
    contract.remove_money_handler(OWNER, helper).unwrap();
    assert_eq!(
        contract.top_up(helper, TKN, 5, &mut events),
        Err(PayError::NotMoneyHandler)
    );
    // Removing an absent identity is a no-op.
    contract.remove_money_handler(OWNER, helper).unwrap();
}
