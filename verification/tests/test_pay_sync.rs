use pay_sync::engine::Transfer;
use pay_sync::events::MoneyEvents;
use pay_sync::{PayError, PaySyncContract};

const OWNER: u64 = 1;
const TKN: u64 = 1001;

fn setup() -> (PaySyncContract, MoneyEvents, Vec<Transfer>) {
    let handlers = vec![OWNER];
    let processors = vec![OWNER];
    let contract = PaySyncContract::init(OWNER, TKN, &handlers, &processors);
    (contract, MoneyEvents::new(), Vec::new())
}

#[test]
fn test_top_up() {
    let (mut contract, mut events, _transfers) = setup();
    assert_eq!(contract.top_up(OWNER, TKN, 200_000, &mut events), Ok(()));
    assert_eq!(contract.balance, 200_000);
}

#[test]
fn test_add_payment_new_recipient() {
    let (mut contract, mut events, _transfers) = setup();
    let new_recipient: u64 = 77;

    assert!(contract
        .add_payment(OWNER, new_recipient, 100_000, 100, false, &mut events)
        .is_ok());
    assert_eq!(contract.recipient_id_index, 2);
    assert!(contract
        .add_payment(OWNER, new_recipient, 100_000, 100, false, &mut events)
        .is_ok());
    assert_eq!(contract.recipient_id_index, 2);
    assert_eq!(contract.get_all_payments_ids().len(), 2);
}

#[test]
fn test_process_payments() {
    let (mut contract, mut events, mut transfers) = setup();
    assert_eq!(contract.top_up(OWNER, TKN, 200_000, &mut events), Ok(()));

    let new_recipient: u64 = 77;
    assert!(contract
        .add_payment(OWNER, new_recipient, 100_000, 100, false, &mut events)
        .is_ok());
    assert!(contract
        .add_payment(OWNER, new_recipient, 100_000, 100, false, &mut events)
        .is_ok());

    let payments = vec![1, 2];
    assert_eq!(
        contract.process_payments(OWNER, 11, &payments, &mut events, &mut transfers),
        Ok(())
    );
}

#[test]
fn test_process_payments_with_no_funds() {
    let (mut contract, mut events, mut transfers) = setup();
    assert_eq!(contract.top_up(OWNER, TKN, 50_000, &mut events), Ok(()));

    let new_recipient: u64 = 77;
    assert!(contract
        .add_payment(OWNER, new_recipient, 100_000, 100, false, &mut events)
        .is_ok());

    let payments = vec![1, 2];
    let outcome = contract.process_payments(OWNER, 11, &payments, &mut events, &mut transfers);
    assert_eq!(outcome, Err(PayError::NotEnoughFunds));
    assert_eq!(
        outcome.unwrap_err().message(),
        "Not enough funds to process payments"
    );
}
