use link_of_trust::id::HashedUserId;
use link_of_trust::record::UserData;

#[test]
fn user_data_trust_network_insertion() {
    let mut user = UserData::new(HashedUserId::from_bs58("alice"));
    user.insert_trust_network("bob".to_string(), 500_000);
    assert_eq!(user.get_trust_network("bob").unwrap(), 500_000);
}

#[test]
fn user_data_trust_network_removal() {
    let mut user = UserData::new(HashedUserId::from_bs58("alice"));
    user.insert_trust_network("bob".to_string(), 500_000);
    user.remove_trust_network("bob");
    assert_eq!(user.get_trust_network("bob"), None);
}

#[test]
fn user_data_cloning() {
    let mut user = UserData::new(HashedUserId::from_bs58("alice"));
    user.insert_trust_network("bob".to_string(), 500_000);
    let user_clone = user.clone();
    assert_eq!(user_clone.get_trust_network("bob").unwrap(), 500_000);
}

#[test]
fn user_data_trust_insertion_after_cloning() {
    let user = UserData::new(HashedUserId::from_bs58("alice"));
    let mut user_clone = user.clone();
    user_clone.insert_trust_network("bob".to_string(), 500_000);

    // The clone has "bob" at half trust
    assert_eq!(user_clone.get_trust_network("bob").unwrap(), 500_000);
    // The original has none
    assert_eq!(user.get_trust_network("bob"), None);
}

#[test]
fn user_data_block_user() {
    let mut alice = UserData::new(HashedUserId::from_bs58("alice"));
    let bob_id = "bob".to_string();

    // Initially, alice is not blocking bob
    assert!(!alice.is_blocked(&bob_id));

    // Block bob
    alice.block_user(bob_id.clone());
    assert!(alice.is_blocked(&bob_id));

    // Re-blocking bob doesn't cause duplication
    alice.block_user(bob_id.clone());
    // still only blocked once
    assert!(alice.is_blocked(&bob_id));
    assert_eq!(alice.blocked_users.len(), 1);
}

#[test]
fn user_data_unblock_user() {
    let mut alice = UserData::new(HashedUserId::from_bs58("alice"));
    alice.block_user("bob".to_string());
    assert!(alice.is_blocked("bob"));

    // Unblock bob
    alice.unblock_user("bob");
    assert!(!alice.is_blocked("bob"));
    // repeated unblock is safe
    alice.unblock_user("bob");
    assert!(!alice.is_blocked("bob"));
    assert_eq!(alice.blocked_users.len(), 0);
}

/// If a user is blocked, the other user cannot remain in trust_network:
/// the data-structure-level half of the blocking side effect.
#[test]
fn blocking_remove_other_trust() {
    let mut alice = UserData::new(HashedUserId::from_bs58("alice"));
    let mut bob = UserData::new(HashedUserId::from_bs58("bob"));

    // bob trusts alice
    bob.insert_trust_network("alice".to_string(), 700_000);
    assert_eq!(bob.get_trust_network("alice").unwrap(), 700_000);

    // alice blocks bob, so bob's trust toward alice has to go
    alice.block_user("bob".to_string());
    bob.remove_trust_network("alice");

    assert_eq!(bob.get_trust_network("alice"), None);
}

#[test]
fn trust_changes() {
    let mut alice = UserData::new(HashedUserId::from_bs58("alice"));

    // trust, untrust, trust again
    alice.insert_trust_network("bob".to_string(), 300_000);
    assert_eq!(alice.get_trust_network("bob").unwrap(), 300_000);

    // untrust bob
    alice.remove_trust_network("bob");
    assert_eq!(alice.get_trust_network("bob"), None);

    // re-trust bob at full trust
    alice.insert_trust_network("bob".to_string(), 1_000_000);
    assert_eq!(alice.get_trust_network("bob").unwrap(), 1_000_000);
}

#[test]
fn measure_stable_under_roundtrip() {
    let mut alice = UserData::new(HashedUserId::from_bs58("alice"));
    alice.insert_trust_network("bob".to_string(), 300_000);
    alice.block_user("carol".to_string());
    let before = link_of_trust::cost::measure_storage_usage(&alice);

    alice.remove_trust_network("bob");
    alice.insert_trust_network("bob".to_string(), 300_000);
    let after = link_of_trust::cost::measure_storage_usage(&alice);

    assert_eq!(before, after);
}

#[test]
fn measure_counts_every_part() {
    // id "alice" (5) + profile "hi" (2) + edge "bob" (3 + 4)
    // + block "carol" (5 + 16) + flat overhead 256
    let mut alice = UserData::new(HashedUserId::from_bs58("alice"));
    alice.public_profile = "hi".to_string();
    alice.insert_trust_network("bob".to_string(), 300_000);
    alice.block_user("carol".to_string());
    assert_eq!(link_of_trust::cost::measure_storage_usage(&alice), 5 + 2 + 3 + 4 + 5 + 16 + 256);
}
