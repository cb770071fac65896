use ledger_runtime::balances::{Call, Pallet};
use ledger_runtime::support::Dispatch;

#[test]
fn test_balance() {
    let mut pallet: Pallet = Pallet::new();
    const ALICE: &str = "Alice";
    const ANN: &str = "Ann";
    assert_eq!(pallet.balance(&ALICE.to_string()), 0);
    pallet.set_balance(&ANN.to_string(), 100);
    assert_eq!(pallet.balance(&ANN.to_string()), 100);
    assert_eq!(pallet.balance(&ALICE.to_string()), 0);
}

#[test]
fn transfer_balance() {
    let mut pallet: Pallet = Pallet::new();
    static ALICE: &str = "Alice";
    static BOB: &str = "Bob";
    pallet.set_balance(&ALICE.to_string(), 100);
    pallet.set_balance(&BOB.to_string(), 100);
    pallet.transfer(ALICE.to_string(), BOB.to_string(), 50).unwrap();
    assert_eq!(pallet.balance(&ALICE.to_string()), 50);
    assert_eq!(pallet.balance(&BOB.to_string()), 150);
}

#[test]
fn transfer_balance_insufficient() {
    let mut pallet: Pallet = Pallet::new();
    const ALICE: &str = "Alice";
    const BOB: &str = "Bob";
    pallet.set_balance(&ALICE.to_string(), 100);
    pallet.set_balance(&BOB.to_string(), 100);
    assert_eq!(
        pallet.transfer(ALICE.to_string(), BOB.to_string(), 150),
        Err("Insufficient balance")
    );
}

#[test]
fn failed_transfer_changes_no_balance() {
    let mut pallet = Pallet::new();
    let alice = "Alice".to_string();
    let bob = "Bob".to_string();
    pallet.set_balance(&alice, 50);
    assert_eq!(pallet.transfer(alice.clone(), bob.clone(), 1000), Err("Insufficient balance"));
    assert_eq!(pallet.balance(&alice), 50);
    assert_eq!(pallet.balance(&bob), 0);
}

#[test]
fn transfer_overflow_changes_no_balance() {
    let mut pallet = Pallet::new();
    let alice = "Alice".to_string();
    let bob = "Bob".to_string();
    pallet.set_balance(&alice, 10);
    pallet.set_balance(&bob, u128::MAX - 5);
    assert_eq!(pallet.transfer(alice.clone(), bob.clone(), 6), Err("Overflow"));
    assert_eq!(pallet.balance(&alice), 10);
    assert_eq!(pallet.balance(&bob), u128::MAX - 5);
    assert_eq!(pallet.transfer(alice.clone(), bob.clone(), 5), Ok(()));
    assert_eq!(pallet.balance(&alice), 5);
    assert_eq!(pallet.balance(&bob), u128::MAX);
}

#[test]
fn insufficient_funds_are_reported_before_overflow() {
    let mut pallet = Pallet::new();
    let alice = "Alice".to_string();
    let bob = "Bob".to_string();
    pallet.set_balance(&alice, 1);
    pallet.set_balance(&bob, u128::MAX);
    assert_eq!(pallet.transfer(alice.clone(), bob.clone(), 2), Err("Insufficient balance"));
    assert_eq!(pallet.transfer(alice.clone(), bob.clone(), 1), Err("Overflow"));
}

#[test]
fn transfer_keeps_the_sum_of_the_two_balances() {
    let mut pallet = Pallet::new();
    let alice = "Alice".to_string();
    let bob = "Bob".to_string();
    let carol = "Carol".to_string();
    pallet.set_balance(&alice, 70);
    pallet.set_balance(&bob, 5);
    pallet.set_balance(&carol, 9);
    assert_eq!(pallet.transfer(alice.clone(), bob.clone(), 70), Ok(()));
    assert_eq!(pallet.balance(&alice), 0);
    assert_eq!(pallet.balance(&bob), 75);
    assert_eq!(pallet.balance(&carol), 9);
}

#[test]
fn transfer_of_zero_from_an_unknown_account() {
    let mut pallet = Pallet::new();
    let alice = "Alice".to_string();
    let bob = "Bob".to_string();
    assert_eq!(pallet.transfer(alice.clone(), bob.clone(), 0), Ok(()));
    assert_eq!(pallet.balance(&alice), 0);
    assert_eq!(pallet.balance(&bob), 0);
    assert_eq!(pallet.transfer(alice.clone(), bob.clone(), 1), Err("Insufficient balance"));
}

#[test]
fn transfer_to_oneself_leaves_the_balance() {
    let mut pallet = Pallet::new();
    let alice = "Alice".to_string();
    pallet.set_balance(&alice, 40);
    assert_eq!(pallet.transfer(alice.clone(), alice.clone(), 40), Ok(()));
    assert_eq!(pallet.balance(&alice), 40);
    assert_eq!(pallet.transfer(alice.clone(), alice.clone(), 81), Err("Insufficient balance"));
    assert_eq!(pallet.balance(&alice), 40);
    pallet.set_balance(&alice, 100);
    assert_eq!(pallet.transfer(alice.clone(), alice.clone(), 30), Ok(()));
    assert_eq!(pallet.balance(&alice), 100);
    pallet.set_balance(&alice, u128::MAX);
    assert_eq!(pallet.transfer(alice.clone(), alice.clone(), 1), Err("Overflow"));
    assert_eq!(pallet.balance(&alice), u128::MAX);
}

#[test]
fn set_balance_overwrites() {
    let mut pallet = Pallet::new();
    let alice = "Alice".to_string();
    pallet.set_balance(&alice, 100);
    pallet.set_balance(&alice, 7);
    assert_eq!(pallet.balance(&alice), 7);
    pallet.set_balance(&alice, 0);
    assert_eq!(pallet.balance(&alice), 0);
}

#[test]
fn dispatch_of_a_transfer_is_the_transfer() {
    let mut pallet = Pallet::new();
    let alice = "Alice".to_string();
    let bob = "Bob".to_string();
    pallet.set_balance(&alice, 10);
    let r = pallet.dispatch(alice.clone(), Call::Transfer { to: bob.clone(), amount: 4 });
    assert_eq!(r, Ok(()));
    assert_eq!(pallet.balance(&alice), 6);
    assert_eq!(pallet.balance(&bob), 4);
    let r = pallet.dispatch(alice.clone(), Call::Transfer { to: bob.clone(), amount: 7 });
    assert_eq!(r, Err("Insufficient balance"));
    assert_eq!(pallet.balance(&alice), 6);
    assert_eq!(pallet.balance(&bob), 4);
}
