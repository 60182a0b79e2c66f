use inky_bank::{Approval, Blacklisted, Burned, Error, InkyBank, LedgerEvent, Minted, Paused, Transfer};

const OWNER: u64 = 1;
const A: u64 = 2;
const B: u64 = 3;
const C: u64 = 4;

fn fresh() -> InkyBank {
    InkyBank::new(OWNER)
}

#[test]
fn new_ledger_is_empty() {
    let bank = fresh();
    assert_eq!(bank.owner(), OWNER);
    assert_eq!(bank.total_supply(), 0);
    assert_eq!(bank.balance_of(A), 0);
    assert_eq!(bank.allowance(A, B), 0);
    assert!(bank.events().is_empty());
}

#[test]
fn mint_by_non_owner_fails() {
    let mut bank = fresh();
    assert_eq!(bank.mint(A, B, 100), Err(Error::NotOwner));
    assert_eq!(bank.balance_of(B), 0);
    assert_eq!(bank.total_supply(), 0);
    assert!(bank.events().is_empty());
}

#[test]
fn mint_to_blacklisted_fails() {
    let mut bank = fresh();
    assert_eq!(bank.toggle_blacklist(OWNER, B, true), Ok(()));
    assert_eq!(bank.mint(OWNER, B, 100), Err(Error::AccountBlacklisted));
    assert_eq!(bank.balance_of(B), 0);
    assert_eq!(bank.total_supply(), 0);
}

#[test]
fn mint_zero_fails() {
    let mut bank = fresh();
    assert_eq!(bank.mint(OWNER, B, 0), Err(Error::ZeroAmount));
    assert_eq!(bank.balance_of(B), 0);
    assert_eq!(bank.total_supply(), 0);
    assert!(bank.events().is_empty());
}

#[test]
fn mint_success_credits_and_emits() {
    let mut bank = fresh();
    assert_eq!(bank.mint(OWNER, B, 100), Ok(()));
    assert_eq!(bank.balance_of(B), 100);
    assert_eq!(bank.total_supply(), 100);
    assert_eq!(bank.events().len(), 1);
    assert_eq!(bank.events()[0], LedgerEvent::Minted(Minted { to: B, amount: 100 }));
}

#[test]
fn mint_when_paused_fails() {
    let mut bank = fresh();
    assert_eq!(bank.toggle_pause(OWNER, true), Ok(()));
    assert_eq!(bank.mint(OWNER, B, 100), Err(Error::ContractPaused));
    assert_eq!(bank.balance_of(B), 0);
}

#[test]
fn mint_checks_owner_before_pause_and_blacklist() {
    let mut bank = fresh();
    assert_eq!(bank.toggle_pause(OWNER, true), Ok(()));
    assert_eq!(bank.toggle_blacklist(OWNER, B, true), Ok(()));
    // A non-owner caller sees NotOwner even while paused.
    assert_eq!(bank.mint(A, B, 5), Err(Error::NotOwner));
    // The owner sees the pause before the blacklist.
    assert_eq!(bank.mint(OWNER, B, 5), Err(Error::ContractPaused));
    assert_eq!(bank.toggle_pause(OWNER, false), Ok(()));
    // Unpaused, the blacklist is checked before the zero-amount rule.
    assert_eq!(bank.mint(OWNER, B, 0), Err(Error::AccountBlacklisted));
}

#[test]
fn mint_saturates_total_supply() {
    let mut bank = fresh();
    assert_eq!(bank.mint(OWNER, A, u128::MAX), Ok(()));
    assert_eq!(bank.total_supply(), u128::MAX);
    assert_eq!(bank.mint(OWNER, B, 5), Ok(()));
    // Both the recipient's credit and the supply saturate independently.
    assert_eq!(bank.balance_of(A), u128::MAX);
    assert_eq!(bank.balance_of(B), 5);
    assert_eq!(bank.total_supply(), u128::MAX);
}

#[test]
fn transfer_insufficient_fails_and_changes_nothing() {
    let mut bank = fresh();
    assert_eq!(bank.mint(OWNER, A, 50), Ok(()));
    assert_eq!(bank.mint(OWNER, B, 10), Ok(()));
    assert_eq!(bank.transfer(A, B, 60), Err(Error::InsufficientBalance));
    assert_eq!(bank.balance_of(A), 50);
    assert_eq!(bank.balance_of(B), 10);
    assert_eq!(bank.events().len(), 2);
}

#[test]
fn transfer_moves_value_and_emits() {
    let mut bank = fresh();
    assert_eq!(bank.mint(OWNER, A, 50), Ok(()));
    assert_eq!(bank.mint(OWNER, B, 10), Ok(()));
    assert_eq!(bank.transfer(A, B, 30), Ok(()));
    assert_eq!(bank.balance_of(A), 20);
    assert_eq!(bank.balance_of(B), 40);
    assert_eq!(bank.total_supply(), 60);
    assert_eq!(bank.events().len(), 3);
    assert_eq!(bank.events()[2], LedgerEvent::Transfer(Transfer { from: A, to: B, amount: 30 }));
}

#[test]
fn transfer_zero_fails() {
    let mut bank = fresh();
    assert_eq!(bank.mint(OWNER, A, 50), Ok(()));
    assert_eq!(bank.transfer(A, B, 0), Err(Error::ZeroAmount));
    assert_eq!(bank.balance_of(A), 50);
    assert_eq!(bank.balance_of(B), 0);
}

#[test]
fn transfer_to_self_keeps_balance_but_emits() {
    let mut bank = fresh();
    assert_eq!(bank.mint(OWNER, A, 50), Ok(()));
    assert_eq!(bank.transfer(A, A, 20), Ok(()));
    assert_eq!(bank.balance_of(A), 50);
    assert_eq!(bank.total_supply(), 50);
    assert_eq!(bank.events()[1], LedgerEvent::Transfer(Transfer { from: A, to: A, amount: 20 }));
    // A self-transfer still requires a sufficient balance.
    assert_eq!(bank.transfer(A, A, 60), Err(Error::InsufficientBalance));
}

#[test]
fn transfer_is_not_gated_by_pause() {
    let mut bank = fresh();
    assert_eq!(bank.mint(OWNER, A, 50), Ok(()));
    assert_eq!(bank.toggle_pause(OWNER, true), Ok(()));
    assert_eq!(bank.transfer(A, B, 30), Ok(()));
    assert_eq!(bank.balance_of(A), 20);
    assert_eq!(bank.balance_of(B), 30);
}

#[test]
fn approve_sets_allowance_and_emits() {
    let mut bank = fresh();
    assert_eq!(bank.approve(A, B, 40), Ok(()));
    assert_eq!(bank.allowance(A, B), 40);
    assert_eq!(bank.allowance(B, A), 0);
    assert_eq!(
        bank.events()[0],
        LedgerEvent::Approval(Approval { owner: A, spender: B, amount: 40 })
    );
}

#[test]
fn approve_overwrites_instead_of_adding() {
    let mut bank = fresh();
    assert_eq!(bank.approve(A, B, 40), Ok(()));
    assert_eq!(bank.approve(A, B, 15), Ok(()));
    assert_eq!(bank.allowance(A, B), 15);
}

#[test]
fn approve_succeeds_while_paused() {
    let mut bank = fresh();
    assert_eq!(bank.toggle_pause(OWNER, true), Ok(()));
    assert_eq!(bank.approve(A, B, 7), Ok(()));
    assert_eq!(bank.allowance(A, B), 7);
}

#[test]
fn transfer_from_beyond_allowance_fails_and_changes_nothing() {
    let mut bank = fresh();
    assert_eq!(bank.mint(OWNER, A, 100), Ok(()));
    assert_eq!(bank.approve(A, B, 40), Ok(()));
    assert_eq!(bank.transfer_from(B, A, C, 50), Err(Error::InsufficientAllowance));
    assert_eq!(bank.balance_of(A), 100);
    assert_eq!(bank.balance_of(C), 0);
    assert_eq!(bank.allowance(A, B), 40);
    assert_eq!(bank.events().len(), 2);
}

#[test]
fn transfer_from_moves_value_and_keeps_allowance() {
    let mut bank = fresh();
    assert_eq!(bank.mint(OWNER, A, 100), Ok(()));
    assert_eq!(bank.approve(A, B, 40), Ok(()));
    assert_eq!(bank.transfer_from(B, A, C, 40), Ok(()));
    assert_eq!(bank.balance_of(A), 60);
    assert_eq!(bank.balance_of(C), 40);
    assert_eq!(bank.total_supply(), 100);
    // The allowance is deliberately not decremented by a delegated transfer.
    assert_eq!(bank.allowance(A, B), 40);
    assert_eq!(bank.events()[2], LedgerEvent::Transfer(Transfer { from: A, to: C, amount: 40 }));
}

#[test]
fn transfer_from_beyond_balance_fails() {
    let mut bank = fresh();
    assert_eq!(bank.mint(OWNER, A, 10), Ok(()));
    assert_eq!(bank.approve(A, B, 100), Ok(()));
    assert_eq!(bank.transfer_from(B, A, C, 50), Err(Error::InsufficientBalance));
    assert_eq!(bank.balance_of(A), 10);
    assert_eq!(bank.balance_of(C), 0);
}

#[test]
fn transfer_from_zero_fails() {
    let mut bank = fresh();
    assert_eq!(bank.mint(OWNER, A, 10), Ok(()));
    assert_eq!(bank.approve(A, B, 100), Ok(()));
    assert_eq!(bank.transfer_from(B, A, C, 0), Err(Error::ZeroAmount));
    assert_eq!(bank.balance_of(A), 10);
}

#[test]
fn transfer_from_when_paused_fails() {
    let mut bank = fresh();
    assert_eq!(bank.mint(OWNER, A, 100), Ok(()));
    assert_eq!(bank.approve(A, B, 40), Ok(()));
    assert_eq!(bank.toggle_pause(OWNER, true), Ok(()));
    assert_eq!(bank.transfer_from(B, A, C, 40), Err(Error::ContractPaused));
    assert_eq!(bank.balance_of(A), 100);
}

#[test]
fn delegated_self_transfer_loses_the_amount() {
    let mut bank = fresh();
    assert_eq!(bank.mint(OWNER, A, 50), Ok(()));
    assert_eq!(bank.approve(A, B, 40), Ok(()));
    // The credit is computed from a balance read before the debit is
    // written, so with from == to the debit overwrites the credit: the
    // account ends 40 lighter while the total supply stays put.
    assert_eq!(bank.transfer_from(B, A, A, 40), Ok(()));
    assert_eq!(bank.balance_of(A), 10);
    assert_eq!(bank.total_supply(), 50);
}

#[test]
fn burn_zero_fails() {
    let mut bank = fresh();
    assert_eq!(bank.mint(OWNER, A, 50), Ok(()));
    assert_eq!(bank.burn(A, 0), Err(Error::ZeroAmount));
    assert_eq!(bank.balance_of(A), 50);
    assert_eq!(bank.total_supply(), 50);
}

#[test]
fn burn_beyond_balance_fails() {
    let mut bank = fresh();
    assert_eq!(bank.mint(OWNER, A, 50), Ok(()));
    assert_eq!(bank.burn(A, 60), Err(Error::InsufficientBalance));
    assert_eq!(bank.balance_of(A), 50);
    assert_eq!(bank.total_supply(), 50);
}

#[test]
fn burn_debits_and_shrinks_supply() {
    let mut bank = fresh();
    assert_eq!(bank.mint(OWNER, A, 50), Ok(()));
    assert_eq!(bank.burn(A, 20), Ok(()));
    assert_eq!(bank.balance_of(A), 30);
    assert_eq!(bank.total_supply(), 30);
    assert_eq!(bank.events()[1], LedgerEvent::Burned(Burned { from: A, amount: 20 }));
}

#[test]
fn burn_needs_no_owner_and_no_unpause() {
    let mut bank = fresh();
    assert_eq!(bank.mint(OWNER, A, 50), Ok(()));
    assert_eq!(bank.toggle_pause(OWNER, true), Ok(()));
    assert_eq!(bank.burn(A, 20), Ok(()));
    assert_eq!(bank.balance_of(A), 30);
}

#[test]
fn toggle_pause_by_non_owner_fails() {
    let mut bank = fresh();
    assert_eq!(bank.toggle_pause(A, true), Err(Error::NotOwner));
    // The ledger is still unpaused: a mint by the owner goes through.
    assert_eq!(bank.mint(OWNER, B, 5), Ok(()));
}

#[test]
fn toggle_pause_emits_new_value() {
    let mut bank = fresh();
    assert_eq!(bank.toggle_pause(OWNER, true), Ok(()));
    assert_eq!(bank.events()[0], LedgerEvent::Paused(Paused { paused: true }));
    assert_eq!(bank.toggle_pause(OWNER, false), Ok(()));
    assert_eq!(bank.events()[1], LedgerEvent::Paused(Paused { paused: false }));
    assert_eq!(bank.mint(OWNER, B, 5), Ok(()));
}

#[test]
fn toggle_pause_works_while_paused() {
    let mut bank = fresh();
    assert_eq!(bank.toggle_pause(OWNER, true), Ok(()));
    assert_eq!(bank.toggle_pause(OWNER, true), Ok(()));
    assert_eq!(bank.mint(OWNER, B, 5), Err(Error::ContractPaused));
}

#[test]
fn toggle_blacklist_by_non_owner_fails() {
    let mut bank = fresh();
    assert_eq!(bank.toggle_blacklist(A, B, true), Err(Error::NotOwner));
    assert_eq!(bank.mint(OWNER, B, 5), Ok(()));
}

#[test]
fn toggle_blacklist_emits_and_can_clear() {
    let mut bank = fresh();
    assert_eq!(bank.toggle_blacklist(OWNER, B, true), Ok(()));
    assert_eq!(
        bank.events()[0],
        LedgerEvent::Blacklisted(Blacklisted { account: B, status: true })
    );
    assert_eq!(bank.mint(OWNER, B, 5), Err(Error::AccountBlacklisted));
    assert_eq!(bank.toggle_blacklist(OWNER, B, false), Ok(()));
    assert_eq!(
        bank.events()[1],
        LedgerEvent::Blacklisted(Blacklisted { account: B, status: false })
    );
    assert_eq!(bank.mint(OWNER, B, 5), Ok(()));
    assert_eq!(bank.balance_of(B), 5);
}

#[test]
fn conservation_holds_over_a_mixed_history() {
    let mut bank = fresh();
    assert_eq!(bank.mint(OWNER, A, 500), Ok(()));
    assert_eq!(bank.mint(OWNER, B, 200), Ok(()));
    assert_eq!(bank.transfer(A, C, 123), Ok(()));
    assert_eq!(bank.approve(A, B, 300), Ok(()));
    assert_eq!(bank.transfer_from(B, A, C, 250), Ok(()));
    assert_eq!(bank.burn(C, 73), Ok(()));
    let touched = [OWNER, A, B, C];
    let sum: u128 = touched.iter().map(|a| bank.balance_of(*a)).sum();
    assert_eq!(bank.total_supply(), sum);
    // Ownership is fixed at construction: no operation transfers it.
    assert_eq!(bank.owner(), OWNER);
}
