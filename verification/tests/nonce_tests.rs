use gas_saver_eth::nonce::NonceManager;

#[test]
fn nonces_are_consecutive_per_sender() {
    let mut nonces = NonceManager::new();
    let sender = [0xAAu8; 20];
    for expected in 0u64..5 {
        assert_eq!(nonces.next_nonce(&sender), expected);
    }
    assert_eq!(nonces.peek_nonce(&sender), 5);
}

#[test]
fn unseen_sender_peeks_zero_and_starts_at_zero() {
    let mut nonces = NonceManager::new();
    let sender = [0x01u8; 20];
    assert_eq!(nonces.peek_nonce(&sender), 0);
    assert_eq!(nonces.next_nonce(&sender), 0);
    assert_eq!(nonces.peek_nonce(&sender), 1);
}

#[test]
fn senders_are_independent() {
    let mut nonces = NonceManager::new();
    let alice = [0x0Au8; 20];
    let bob = [0x0Bu8; 20];
    assert_eq!(nonces.next_nonce(&alice), 0);
    assert_eq!(nonces.next_nonce(&alice), 1);
    assert_eq!(nonces.next_nonce(&bob), 0);
    assert_eq!(nonces.next_nonce(&alice), 2);
    assert_eq!(nonces.next_nonce(&bob), 1);
}

#[test]
fn update_nonce_overrides_the_counter() {
    let mut nonces = NonceManager::new();
    let sender = [0x42u8; 20];
    nonces.update_nonce(sender, 1000);
    assert_eq!(nonces.peek_nonce(&sender), 1000);
    assert_eq!(nonces.next_nonce(&sender), 1000);
    assert_eq!(nonces.next_nonce(&sender), 1001);
    nonces.update_nonce(sender, 7);
    assert_eq!(nonces.next_nonce(&sender), 7);
}
