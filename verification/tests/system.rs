use ledger_runtime::system::Pallet;

#[test]
fn init_system() {
    let _pallet: Pallet = Pallet::new();
    assert_eq!(_pallet.block_number(), 0);
}

#[test]
fn inc_block_number() {
    let mut pallet: Pallet = Pallet::new();
    pallet.inc_block_number();
    assert_eq!(pallet.block_number(), 1);
}

#[test]
fn inc_nonce() {
    let mut pallet: Pallet = Pallet::new();
    let alice = "Alice".to_string();
    pallet.inc_nonce(&alice);
    assert_eq!(pallet.get_nonce(&alice), 1);
    pallet.inc_nonce(&alice);
    assert_eq!(pallet.get_nonce(&alice), 2);
}

#[test]
fn unseen_account_has_nonce_zero() {
    let mut pallet = Pallet::new();
    assert_eq!(pallet.get_nonce(&"Alice".to_string()), 0);
    pallet.inc_nonce(&"Bob".to_string());
    assert_eq!(pallet.get_nonce(&"Alice".to_string()), 0);
    assert_eq!(pallet.get_nonce(&"Bob".to_string()), 1);
    assert_eq!(pallet.get_nonce(&"".to_string()), 0);
}

#[test]
fn block_number_counts_each_increment() {
    let mut pallet = Pallet::new();
    for expected in 1..=5u32 {
        pallet.inc_block_number();
        assert_eq!(pallet.block_number(), expected);
    }
    assert_eq!(pallet.get_nonce(&"Alice".to_string()), 0);
}

#[test]
fn nonces_of_accounts_are_independent() {
    let mut pallet = Pallet::new();
    let alice = "Alice".to_string();
    let bob = "Bob".to_string();
    pallet.inc_nonce(&alice);
    pallet.inc_nonce(&bob);
    pallet.inc_nonce(&alice);
    pallet.inc_nonce(&alice);
    assert_eq!(pallet.get_nonce(&alice), 3);
    assert_eq!(pallet.get_nonce(&bob), 1);
    assert_eq!(pallet.block_number(), 0);
}
