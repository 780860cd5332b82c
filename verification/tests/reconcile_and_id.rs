use link_of_trust::errors::TrustError;
use link_of_trust::id::HashedUserId;
use link_of_trust::ledger::{reconcile, Reconciliation};

#[test]
fn reconcile_underfunded_reports_exact_deficit() {
    // measured 100 bytes at cost 1, holding 0, attaching 50: short by 50
    let r = reconcile(100, 1, 0, 50);
    assert_eq!(r, Err(TrustError::InsufficientFunds { deficit: 50 }));
}

#[test]
fn reconcile_overfunded_trims_and_refunds() {
    // measured 100 bytes at cost 1, holding 0, attaching 150
    let r = reconcile(100, 1, 0, 150);
    assert_eq!(r, Ok(Reconciliation { new_balance: 100, refund: 50 }));
}

#[test]
fn reconcile_exact_funding_keeps_everything() {
    let r = reconcile(100, 1, 60, 40);
    assert_eq!(r, Ok(Reconciliation { new_balance: 100, refund: 0 }));
}

#[test]
fn reconcile_reuses_held_balance() {
    // already fully funded: nothing attached, nothing refunded
    let r = reconcile(100, 2, 200, 0);
    assert_eq!(r, Ok(Reconciliation { new_balance: 200, refund: 0 }));
}

#[test]
fn derive_is_deterministic_and_one_way() {
    let a1 = HashedUserId::from_account_id("alice.near");
    let a2 = HashedUserId::from_account_id("alice.near");
    let b = HashedUserId::from_account_id("bob.near");

    // deterministic
    assert_eq!(a1.s_bs58, a2.s_bs58);
    // different identities give different keys
    assert_ne!(a1.s_bs58, b.s_bs58);
    // a 32-byte digest in base-58 is much longer than the raw name
    assert!(a1.len() >= 40);
    assert_ne!(a1.s_bs58, "alice.near");
}

#[test]
fn derived_key_decodes_to_a_digest() {
    let a = HashedUserId::from_account_id("alice.near");
    let bytes = a.as_bytes().unwrap();
    assert_eq!(bytes.len(), 32);
}

#[test]
fn from_bs58_wraps_verbatim() {
    let k = HashedUserId::from_bs58("alice");
    assert_eq!(k.s_bs58, "alice");
    assert_eq!(k.len(), 5);
}

#[test]
fn invalid_base58_text_has_no_bytes() {
    // '0', 'O', 'I' and 'l' are not base-58 digits
    let k = HashedUserId::from_bs58("0OIl");
    assert_eq!(k.as_bytes(), None);
}
