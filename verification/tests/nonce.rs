use std::collections::HashSet;

use dispatch::error::DispatchError;
use dispatch::nonce::{encode, generate, generate_many, other_than};

#[test]
fn nonces_are_32_hex_chars() {
    for _ in 0..10 {
        let n = generate().unwrap();
        assert_eq!(n.len(), 32, "nonce should be 32 chars, got: {}", n);
        assert!(
            n.chars().all(|c| c.is_ascii_hexdigit()),
            "non-hex char in nonce: {}",
            n
        );
    }
}

#[test]
fn nonces_differ_between_calls() {
    let nonces: Vec<_> = (0..50).map(|_| generate().unwrap()).collect();
    let unique: HashSet<_> = nonces.iter().collect();
    // 128-bit random: collisions across 50 draws are astronomically unlikely.
    assert_eq!(unique.len(), nonces.len(), "nonce collision: {:?}", nonces);
}

#[test]
fn bytes_become_two_lower_case_digits_each() {
    let bytes = [0, 1, 9, 10, 15, 16, 127, 128, 159, 160, 171, 205, 239, 240, 254, 255];
    assert_eq!(encode(&bytes), "0001090a0f107f809fa0abcdeff0feff");
}

#[test]
fn different_bytes_give_different_nonces() {
    let a = [0u8; 16];
    let mut b = [0u8; 16];
    b[15] = 1;
    assert_ne!(encode(&a), encode(&b));
}

#[test]
fn many_nonces_are_drawn_one_by_one() {
    assert!(generate_many(0).unwrap().is_empty());
    let nonces = generate_many(5).unwrap();
    assert_eq!(nonces.len(), 5);
    let unique: HashSet<_> = nonces.iter().collect();
    assert_eq!(unique.len(), 5);
}

#[test]
fn a_nonce_that_is_taken_is_not_given_again() {
    let taken = Some("a".to_string());
    assert_eq!(other_than(Ok("b".to_string()), &taken).unwrap(), "b");
    assert_eq!(other_than(Ok("a".to_string()), &None).unwrap(), "a");
    assert!(matches!(
        other_than(Ok("a".to_string()), &taken),
        Err(DispatchError::EntropyUnavailable)
    ));
    assert!(other_than(Err(DispatchError::EntropyUnavailable), &None).is_err());
}
