use inky_bank::{Error, InkyBank, LedgerEvent, Transfer};

const OWNER: u64 = 1;
const A: u64 = 2;
const B: u64 = 3;
const C: u64 = 4;

fn funded(balance: u128) -> InkyBank {
    let mut bank = InkyBank::new(OWNER);
    assert_eq!(bank.mint(OWNER, A, balance), Ok(()));
    bank
}

#[test]
fn batch_transfer_pays_each_recipient() {
    let mut bank = funded(50);
    assert_eq!(bank.batch_transfer(A, vec![B, C], vec![20, 20]), Ok(()));
    assert_eq!(bank.balance_of(A), 10);
    assert_eq!(bank.balance_of(B), 20);
    assert_eq!(bank.balance_of(C), 20);
    assert_eq!(bank.total_supply(), 50);
    assert_eq!(bank.events().len(), 3);
    assert_eq!(bank.events()[1], LedgerEvent::Transfer(Transfer { from: A, to: B, amount: 20 }));
    assert_eq!(bank.events()[2], LedgerEvent::Transfer(Transfer { from: A, to: C, amount: 20 }));
}

#[test]
fn batch_transfer_aggregate_check_fails_upfront() {
    let mut bank = funded(50);
    assert_eq!(
        bank.batch_transfer(A, vec![B, C], vec![20, 40]),
        Err(Error::InsufficientBalance)
    );
    assert_eq!(bank.balance_of(A), 50);
    assert_eq!(bank.balance_of(B), 0);
    assert_eq!(bank.balance_of(C), 0);
    assert_eq!(bank.events().len(), 1);
}

#[test]
fn batch_transfer_length_mismatch_fails() {
    let mut bank = funded(50);
    assert_eq!(
        bank.batch_transfer(A, vec![B, C], vec![20]),
        Err(Error::InvalidBatchOperation)
    );
    assert_eq!(bank.balance_of(A), 50);
}

#[test]
fn batch_transfer_when_paused_fails() {
    let mut bank = funded(50);
    assert_eq!(bank.toggle_pause(OWNER, true), Ok(()));
    assert_eq!(
        bank.batch_transfer(A, vec![B], vec![10]),
        Err(Error::ContractPaused)
    );
    assert_eq!(bank.balance_of(A), 50);
}

#[test]
fn batch_transfer_zero_pair_stops_without_rollback() {
    let mut bank = funded(50);
    // The aggregate check passes (20 <= 50), the first pair is applied, and
    // the zero second pair stops the batch; the applied pair stays applied.
    assert_eq!(
        bank.batch_transfer(A, vec![B, C], vec![20, 0]),
        Err(Error::ZeroAmount)
    );
    assert_eq!(bank.balance_of(A), 30);
    assert_eq!(bank.balance_of(B), 20);
    assert_eq!(bank.balance_of(C), 0);
    assert_eq!(bank.total_supply(), 50);
    assert_eq!(bank.events().len(), 2);
    assert_eq!(bank.events()[1], LedgerEvent::Transfer(Transfer { from: A, to: B, amount: 20 }));
}

#[test]
fn batch_transfer_empty_batch_succeeds() {
    let mut bank = funded(50);
    assert_eq!(bank.batch_transfer(A, vec![], vec![]), Ok(()));
    assert_eq!(bank.balance_of(A), 50);
    assert_eq!(bank.events().len(), 1);
}

#[test]
fn batch_transfer_may_pay_the_caller() {
    let mut bank = funded(50);
    // The aggregate check counts the self-payment (30 + 20 <= 50), yet the
    // self-payment returns to the caller, so nothing is really spent by it.
    assert_eq!(bank.batch_transfer(A, vec![A, B], vec![30, 20]), Ok(()));
    assert_eq!(bank.balance_of(A), 30);
    assert_eq!(bank.balance_of(B), 20);
    assert_eq!(bank.total_supply(), 50);
}

#[test]
fn batch_transfer_saturated_sum_can_stop_mid_run() {
    let mut bank = funded(u128::MAX);
    // The saturating aggregate clamps to the caller's balance, so the
    // upfront check passes, yet the second pair finds too little left.
    assert_eq!(
        bank.batch_transfer(A, vec![B, C], vec![u128::MAX, u128::MAX]),
        Err(Error::InsufficientBalance)
    );
    assert_eq!(bank.balance_of(A), 0);
    assert_eq!(bank.balance_of(B), u128::MAX);
    assert_eq!(bank.balance_of(C), 0);
    assert_eq!(bank.events().len(), 2);
}
