use smppgc::names::{NameClaimError, UsernameManager};
use smppgc::userid::UserId;

fn key(n: u8) -> UserId {
    let mut s = String::from(if n % 2 == 0 { "a" } else { "l" });
    for _ in 0..31 {
        s.push('0');
    }
    s.push(char::from_digit(n as u32 % 10, 10).unwrap());
    UserId::parse_str(&s).expect("valid key")
}

#[test]
fn claim_and_reclaim_across_sessions() {
    // K1 claims "Alice"; a different identity cannot take the normalized
    // name while K1 reserves it; K1 itself can.
    let mut mgr = UsernameManager::new(5);
    let k1 = key(1);
    let k2 = key(2);
    let lease = mgr.claim_name("Alice", k1).expect("first claim");
    assert_eq!(lease.as_str(), "Alice");
    assert!(matches!(mgr.claim_name("alice", k2), Err(NameClaimError::Taken)));
    assert!(mgr.claim_name("alice", k1).is_ok());
}

#[test]
fn lru_eviction_frees_oldest_name() {
    // With two reservations per identity, a third claim frees the first
    // name for someone else.
    let mut mgr = UsernameManager::new(2);
    let k1 = key(1);
    let k2 = key(2);
    assert!(mgr.claim_name("a1", k1).is_ok());
    assert!(mgr.claim_name("a2", k1).is_ok());
    assert!(matches!(mgr.claim_name("a1", k2), Err(NameClaimError::Taken)));
    assert!(mgr.claim_name("a3", k1).is_ok());
    assert!(mgr.claim_name("a1", k2).is_ok());
}

#[test]
fn reclaiming_front_name_keeps_other_reservations() {
    let mut mgr = UsernameManager::new(2);
    let k1 = key(1);
    let k2 = key(2);
    assert!(mgr.claim_name("one", k1).is_ok());
    assert!(mgr.claim_name("two", k1).is_ok());
    // Claiming the most recent name again does not evict the older one.
    assert!(mgr.claim_name("two", k1).is_ok());
    assert!(matches!(mgr.claim_name("one", k2), Err(NameClaimError::Taken)));
}

#[test]
fn invalid_names_rejected() {
    let mut mgr = UsernameManager::new(5);
    let k1 = key(1);
    assert!(matches!(mgr.claim_name("x", k1), Err(NameClaimError::Invalid)));
    assert!(matches!(mgr.claim_name("   ", k1), Err(NameClaimError::Invalid)));
    assert!(matches!(
        mgr.claim_name("abcdefghijklmnopqrstu", k1),
        Err(NameClaimError::Invalid)
    ));
    assert!(matches!(mgr.claim_name("has@sign", k1), Err(NameClaimError::Invalid)));
    assert!(matches!(mgr.claim_name("tab\tchar", k1), Err(NameClaimError::Invalid)));
    assert!(matches!(mgr.claim_name("caf\u{e9}", k1), Err(NameClaimError::Invalid)));
    assert!(mgr.claim_name("  ok  ", k1).is_ok());
}

#[test]
fn normalization_folds_case_and_capital_i() {
    // "III" normalizes to "lll", so it collides with "LLL".
    let mut mgr = UsernameManager::new(5);
    let k1 = key(1);
    let k2 = key(2);
    assert!(mgr.claim_name("III", k1).is_ok());
    assert!(matches!(mgr.claim_name("LLL", k2), Err(NameClaimError::Taken)));
    assert!(matches!(mgr.claim_name("lll", k2), Err(NameClaimError::Taken)));
}

#[test]
fn error_messages() {
    assert_eq!(NameClaimError::Invalid.message(), "Username invalid");
    assert_eq!(NameClaimError::Taken.message(), "Username taken");
}
