use link_of_trust::contract::CentralLinkOfTrustContract;
use link_of_trust::errors::TrustError;
use link_of_trust::id::HashedUserId;

fn alice() -> HashedUserId {
    HashedUserId::from_bs58("alice")
}

fn bob() -> HashedUserId {
    HashedUserId::from_bs58("bob")
}

// Plenty of attached funds at a cost of one unit per byte.
const ATTACH: u128 = 10_000;
const COST: u128 = 1;

#[test]
fn set_trust_then_get_returns_level() {
    let mut c = CentralLinkOfTrustContract::new();
    c.trust(&alice(), "bob".to_string(), 500_000, ATTACH, COST).unwrap();
    let view = c.get_user_data("alice".to_string()).unwrap();
    assert_eq!(view.trust_network, vec![("bob".to_string(), 500_000)]);
}

#[test]
fn set_trust_zero_removes_edge() {
    let mut c = CentralLinkOfTrustContract::new();
    c.trust(&alice(), "bob".to_string(), 500_000, ATTACH, COST).unwrap();
    c.trust(&alice(), "bob".to_string(), 0, ATTACH, COST).unwrap();
    let view = c.get_user_data("alice".to_string()).unwrap();
    assert!(view.trust_network.is_empty());
}

#[test]
fn out_of_range_trust_level_is_rejected() {
    let mut c = CentralLinkOfTrustContract::new();
    c.trust(&alice(), "bob".to_string(), 500_000, ATTACH, COST).unwrap();

    let r = c.trust(&alice(), "bob".to_string(), 1_000_001, ATTACH, COST);
    assert_eq!(r, Err(TrustError::InvalidArgument));
    let r = c.trust(&alice(), "bob".to_string(), -1, ATTACH, COST);
    assert_eq!(r, Err(TrustError::InvalidArgument));

    // the trust mapping is unchanged
    let view = c.get_user_data("alice".to_string()).unwrap();
    assert_eq!(view.trust_network, vec![("bob".to_string(), 500_000)]);
}

#[test]
fn block_is_idempotent() {
    let mut c = CentralLinkOfTrustContract::new();
    c.block_user(&alice(), "bob".to_string(), ATTACH, COST).unwrap();
    c.block_user(&alice(), "bob".to_string(), ATTACH, COST).unwrap();
    let view = c.get_user_data("alice".to_string()).unwrap();
    assert_eq!(view.blocked_users, vec!["bob".to_string()]);
}

#[test]
fn unblock_of_non_blocked_peer_is_a_noop() {
    let mut c = CentralLinkOfTrustContract::new();
    c.trust(&alice(), "bob".to_string(), 500_000, ATTACH, COST).unwrap();
    let before = c.get_user_data("alice".to_string()).unwrap();

    let r = c.unblock_user(&alice(), "carol".to_string(), 0, COST);
    assert!(r.is_ok());

    let after = c.get_user_data("alice".to_string()).unwrap();
    assert_eq!(before.blocked_users, after.blocked_users);
    assert_eq!(before.trust_network, after.trust_network);
}

#[test]
fn blocking_removes_the_reverse_trust_edge() {
    let mut c = CentralLinkOfTrustContract::new();
    // bob trusts alice
    c.trust(&bob(), "alice".to_string(), 700_000, ATTACH, COST).unwrap();
    assert_eq!(
        c.get_user_data("bob".to_string()).unwrap().trust_network,
        vec![("alice".to_string(), 700_000)]
    );

    // alice blocks bob: the side update removes bob's edge toward alice
    c.block_user(&alice(), "bob".to_string(), ATTACH, COST).unwrap();
    assert!(c.get_user_data("bob".to_string()).unwrap().trust_network.is_empty());
    assert_eq!(
        c.get_user_data("alice".to_string()).unwrap().blocked_users,
        vec!["bob".to_string()]
    );
}

#[test]
fn blocked_caller_cannot_set_trust() {
    let mut c = CentralLinkOfTrustContract::new();
    c.block_user(&alice(), "bob".to_string(), ATTACH, COST).unwrap();

    let r = c.trust(&bob(), "alice".to_string(), 500_000, ATTACH, COST);
    assert_eq!(r, Err(TrustError::PermissionDenied));
    // bob's trust mapping is unchanged: no record was even created
    assert!(c.get_user_data("bob".to_string()).is_none());
}

#[test]
fn insufficient_attachment_fails_with_exact_deficit() {
    let mut c = CentralLinkOfTrustContract::new();
    // record: id "alice" (5) + edge "bob" (3 + 4) + overhead 256 = 268 bytes
    let r = c.trust(&alice(), "bob".to_string(), 500_000, 200, 1);
    assert_eq!(r, Err(TrustError::InsufficientFunds { deficit: 68 }));
    // nothing was committed
    assert!(c.get_user_data("alice".to_string()).is_none());
    assert_eq!(c.get_user_deposit("alice".to_string()), None);
}

#[test]
fn excess_attachment_is_refunded_and_escrow_trimmed() {
    let mut c = CentralLinkOfTrustContract::new();
    // 268 bytes at cost 1; attaching 300 leaves a refund of 32
    let refund = c.trust(&alice(), "bob".to_string(), 500_000, 300, 1).unwrap();
    assert_eq!(refund, 32);
    assert_eq!(c.get_user_deposit("alice".to_string()), Some(268));
}

#[test]
fn delete_user_refunds_and_second_delete_fails() {
    let mut c = CentralLinkOfTrustContract::new();
    c.trust(&alice(), "bob".to_string(), 500_000, ATTACH, COST).unwrap();
    let held = c.get_user_deposit("alice".to_string()).unwrap();
    assert_eq!(held, 268);

    let refund = c.delete_user(&alice()).unwrap();
    assert_eq!(refund, held);
    assert!(c.get_user_data("alice".to_string()).is_none());
    assert_eq!(c.get_user_deposit("alice".to_string()), None);

    assert_eq!(c.delete_user(&alice()), Err(TrustError::NotFound));
}

#[test]
fn extract_profit_denied_for_non_owner() {
    let mut c = CentralLinkOfTrustContract::new();
    c.trust(&alice(), "bob".to_string(), 500_000, ATTACH, COST).ok();
    for amount in [0u128, 1, 1_000_000, u128::MAX] {
        let r = c.extract_profit("mallory.near", "system.near", u128::MAX, amount);
        assert_eq!(r, Err(TrustError::PermissionDenied));
    }
}

#[test]
fn extract_profit_owner_paths() {
    let c = CentralLinkOfTrustContract::new();
    let reserve: u128 = 2_000_000_000_000_000_000_000_000;
    // no deposits: surplus is balance minus the reserve
    let r = c.extract_profit("system.near", "system.near", reserve + 100, 40);
    assert_eq!(r, Ok(40));
    // more than the surplus
    let r = c.extract_profit("system.near", "system.near", reserve + 100, 101);
    assert_eq!(r, Err(TrustError::InsufficientFunds { deficit: 1 }));
    // zero amount
    let r = c.extract_profit("system.near", "system.near", reserve + 100, 0);
    assert_eq!(r, Err(TrustError::InvalidArgument));
}

#[test]
fn total_deposits_sums_all_entries() {
    let mut c = CentralLinkOfTrustContract::new();
    c.trust(&alice(), "bob".to_string(), 500_000, ATTACH, COST).unwrap();
    c.trust(&bob(), "alice".to_string(), 500_000, ATTACH, COST).unwrap();
    let a = c.get_user_deposit("alice".to_string()).unwrap();
    let b = c.get_user_deposit("bob".to_string()).unwrap();
    assert_eq!(c.get_total_users_deposit(), a + b);
}

#[test]
fn modify_profile_and_view() {
    let mut c = CentralLinkOfTrustContract::new();
    c.modify_public_profile(&alice(), "hello".to_string(), ATTACH, COST).unwrap();
    let view = c.get_user_data("alice".to_string()).unwrap();
    assert_eq!(view.public_profile, "hello");
    assert_eq!(view.hashed_user_id, "alice");
    assert_eq!(view.requested_trust_cost, 0);

    let ids = c.view_users();
    assert_eq!(ids, vec!["alice".to_string()]);
}

#[test]
fn untrust_removes_only_that_edge() {
    let mut c = CentralLinkOfTrustContract::new();
    c.trust(&alice(), "bob".to_string(), 500_000, ATTACH, COST).unwrap();
    c.trust(&alice(), "carol".to_string(), 300_000, ATTACH, COST).unwrap();
    c.untrust(&alice(), "bob".to_string(), ATTACH, COST).unwrap();
    let view = c.get_user_data("alice".to_string()).unwrap();
    assert_eq!(view.trust_network, vec![("carol".to_string(), 300_000)]);
}

#[test]
fn self_block_drops_own_trust_edge() {
    let mut c = CentralLinkOfTrustContract::new();
    c.trust(&alice(), "alice".to_string(), 500_000, ATTACH, COST).unwrap();
    c.block_user(&alice(), "alice".to_string(), ATTACH, COST).unwrap();
    let view = c.get_user_data("alice".to_string()).unwrap();
    assert!(view.trust_network.is_empty());
    assert_eq!(view.blocked_users, vec!["alice".to_string()]);
}
