use cw404_core::approvals::{approve_nft, assert_can_send, revoke_nft};
use cw404_core::error::ContractError;
use cw404_core::expiration::{BlockInfo, Expiration};
use cw404_core::nft::transfer_nft_helper;
use cw404_core::operators::NftOperators;
use cw404_core::queries::{
    query_all_nfts_operators, query_nft_approval, query_nft_approvals, query_nft_operator,
    query_nft_owner,
};
use cw404_core::registry::NftRegistry;

fn block_at(height: u64, seconds: u64) -> BlockInfo {
    BlockInfo {
        height,
        time_nanos: seconds * 1_000_000_000,
    }
}

fn setup_one_item(owner: &str) -> (NftRegistry, NftOperators) {
    let mut reg = NftRegistry::new(10);
    reg.batch_mint_nft(&owner.to_string(), "https://meta", 1)
        .unwrap();
    (reg, NftOperators::new())
}

#[test]
fn revoking_an_absent_approval_is_a_silent_no_op() {
    let (mut reg, ops) = setup_one_item("alice");
    let block = block_at(5, 50);
    let alice = "alice".to_string();
    let spender = "spender".to_string();
    revoke_nft(&mut reg, &ops, &block, &alice, &spender, 1).unwrap();
    let approvals = query_nft_approvals(&reg, &block, 1, Some(true))
        .unwrap()
        .approvals;
    assert!(approvals.is_empty());
}

#[test]
fn approve_grants_send_rights_and_transfer_clears_them() {
    let (mut reg, ops) = setup_one_item("alice");
    let block = block_at(5, 50);
    let alice = "alice".to_string();
    let bob = "bob".to_string();
    let spender = "spender".to_string();
    assert_eq!(
        assert_can_send(&reg, &ops, &block, &spender, 1).unwrap_err(),
        ContractError::NoAccessToSendNftCauseGrantNotFound
    );
    approve_nft(
        &mut reg,
        &ops,
        &block,
        &alice,
        &spender,
        1,
        Some(Expiration::AtHeight(100)),
    )
    .unwrap();
    assert_can_send(&reg, &ops, &block, &spender, 1).unwrap();
    transfer_nft_helper(&mut reg, &ops, &block, &spender, &bob, 1).unwrap();
    let resp = query_nft_owner(&reg, &block, 1, Some(true)).unwrap();
    assert_eq!(resp.owner, "bob");
    assert!(resp.approvals.is_empty());
    assert_eq!(
        assert_can_send(&reg, &ops, &block, &spender, 1).unwrap_err(),
        ContractError::NoAccessToSendNftCauseGrantNotFound
    );
}

#[test]
fn approve_replaces_an_earlier_approval_for_the_same_spender() {
    let (mut reg, ops) = setup_one_item("alice");
    let block = block_at(5, 50);
    let alice = "alice".to_string();
    let spender = "spender".to_string();
    approve_nft(
        &mut reg,
        &ops,
        &block,
        &alice,
        &spender,
        1,
        Some(Expiration::AtHeight(10)),
    )
    .unwrap();
    approve_nft(
        &mut reg,
        &ops,
        &block,
        &alice,
        &spender,
        1,
        Some(Expiration::AtHeight(20)),
    )
    .unwrap();
    let approvals = query_nft_approvals(&reg, &block, 1, Some(true))
        .unwrap()
        .approvals;
    assert_eq!(approvals.len(), 1);
    assert_eq!(approvals[0].spender, "spender");
    assert_eq!(approvals[0].expires, Expiration::AtHeight(20));
}

#[test]
fn an_already_expired_approval_is_rejected_as_invalid() {
    let (mut reg, ops) = setup_one_item("alice");
    let block = block_at(5, 50);
    let alice = "alice".to_string();
    let spender = "spender".to_string();
    let err = approve_nft(
        &mut reg,
        &ops,
        &block,
        &alice,
        &spender,
        1,
        Some(Expiration::AtHeight(5)),
    )
    .unwrap_err();
    assert_eq!(err, ContractError::Expired);
}

#[test]
fn an_expired_approval_gives_no_send_rights() {
    let (mut reg, ops) = setup_one_item("alice");
    let alice = "alice".to_string();
    let spender = "spender".to_string();
    approve_nft(
        &mut reg,
        &ops,
        &block_at(5, 50),
        &alice,
        &spender,
        1,
        Some(Expiration::AtHeight(8)),
    )
    .unwrap();
    let later = block_at(8, 80);
    assert_eq!(
        assert_can_send(&reg, &ops, &later, &spender, 1).unwrap_err(),
        ContractError::NoAccessToSendNftCauseGrantNotFound
    );
}

#[test]
fn only_the_owner_or_an_operator_may_update_approvals() {
    let (mut reg, ops) = setup_one_item("alice");
    let block = block_at(5, 50);
    let bob = "bob".to_string();
    let spender = "spender".to_string();
    let err = approve_nft(&mut reg, &ops, &block, &bob, &spender, 1, None).unwrap_err();
    assert_eq!(err, ContractError::NoAccessToApproveNftCauseGrantNotFound);
}

#[test]
fn operator_grants_cover_current_and_future_items_until_revoked() {
    let mut reg = NftRegistry::new(10);
    let mut ops = NftOperators::new();
    let block = block_at(5, 50);
    let alice = "alice".to_string();
    let bob = "bob".to_string();
    let op = "operator".to_string();
    reg.batch_mint_nft(&alice, "https://meta", 1).unwrap();
    ops.approve_all_nft(&block, &alice, &op, None).unwrap();
    assert_can_send(&reg, &ops, &block, &op, 1).unwrap();
    // The grant also covers an item minted after it was given.
    reg.batch_mint_nft(&alice, "https://meta", 1).unwrap();
    assert_can_send(&reg, &ops, &block, &op, 2).unwrap();
    // And it lets the operator manage approvals on the owner's items.
    approve_nft(
        &mut reg,
        &ops,
        &block,
        &op,
        &bob,
        1,
        Some(Expiration::Never),
    )
    .unwrap();
    ops.revoke_all_nft(&alice, &op);
    assert_eq!(
        assert_can_send(&reg, &ops, &block, &op, 1).unwrap_err(),
        ContractError::NoAccessToSendNftCauseGrantNotFound
    );
}

#[test]
fn an_expired_operator_grant_is_reported_as_expired() {
    let (mut reg, mut ops) = setup_one_item("alice");
    let alice = "alice".to_string();
    let op = "operator".to_string();
    ops.approve_all_nft(
        &block_at(5, 50),
        &alice,
        &op,
        Some(Expiration::AtTime(60 * 1_000_000_000)),
    )
    .unwrap();
    let later = block_at(6, 61);
    assert_eq!(
        assert_can_send(&reg, &ops, &later, &op, 1).unwrap_err(),
        ContractError::NoAccessToSendNftCauseGrantExpired
    );
    // An already expired grant is rejected at creation.
    let err = ops
        .approve_all_nft(&later, &alice, &op, Some(Expiration::AtHeight(6)))
        .unwrap_err();
    assert_eq!(err, ContractError::Expired);
    let _ = &mut reg;
}

#[test]
fn owner_of_unknown_item_is_not_found() {
    let (reg, ops) = setup_one_item("alice");
    let block = block_at(5, 50);
    let err = query_nft_owner(&reg, &block, 9, None).unwrap_err();
    assert_eq!(err, ContractError::NftTokenIdNotFound { nft_token_id: 9 });
    let err = assert_can_send(&reg, &ops, &block, &"alice".to_string(), 9).unwrap_err();
    assert_eq!(err, ContractError::NftTokenIdNotFound { nft_token_id: 9 });
}

#[test]
fn approval_queries_distinguish_owner_spender_and_absence() {
    let (mut reg, ops) = setup_one_item("alice");
    let block = block_at(5, 50);
    let alice = "alice".to_string();
    let spender = "spender".to_string();
    let other = "other".to_string();
    // The owner holds an implicit approval that never expires.
    let resp = query_nft_approval(&reg, &block, 1, &alice, None).unwrap();
    assert_eq!(resp.approval.spender, "alice");
    assert_eq!(resp.approval.expires, Expiration::Never);
    approve_nft(
        &mut reg,
        &ops,
        &block,
        &alice,
        &spender,
        1,
        Some(Expiration::AtHeight(8)),
    )
    .unwrap();
    let resp = query_nft_approval(&reg, &block, 1, &spender, None).unwrap();
    assert_eq!(resp.approval.expires, Expiration::AtHeight(8));
    // Expired approvals stay hidden unless asked for.
    let later = block_at(9, 90);
    let err = query_nft_approval(&reg, &later, 1, &spender, None).unwrap_err();
    assert_eq!(
        err,
        ContractError::ApprovalNotFound {
            spender: "spender".to_string()
        }
    );
    query_nft_approval(&reg, &later, 1, &spender, Some(true)).unwrap();
    let err = query_nft_approval(&reg, &block, 1, &other, None).unwrap_err();
    assert_eq!(
        err,
        ContractError::ApprovalNotFound {
            spender: "other".to_string()
        }
    );
}

#[test]
fn operator_listing_filters_by_owner_expiry_and_bound() {
    let mut ops = NftOperators::new();
    let block = block_at(5, 50);
    let alice = "alice".to_string();
    let bob = "bob".to_string();
    ops.approve_all_nft(&block, &alice, &"op1".to_string(), None)
        .unwrap();
    ops.approve_all_nft(
        &block,
        &alice,
        &"op2".to_string(),
        Some(Expiration::AtHeight(7)),
    )
    .unwrap();
    ops.approve_all_nft(&block, &bob, &"op3".to_string(), None)
        .unwrap();
    let later = block_at(8, 80);
    let page = query_all_nfts_operators(&ops, &later, &alice, None, None, None).operators;
    assert_eq!(page.len(), 1);
    assert_eq!(page[0].spender, "op1");
    let page = query_all_nfts_operators(&ops, &later, &alice, Some(true), None, None).operators;
    assert_eq!(page.len(), 2);
    let page = query_all_nfts_operators(
        &ops,
        &later,
        &alice,
        Some(true),
        Some("op1".to_string()),
        None,
    )
    .operators;
    assert_eq!(page.len(), 1);
    assert_eq!(page[0].spender, "op2");
    // The single-grant query distinguishes expiry from absence.
    let resp = query_nft_operator(&ops, &later, &alice, &"op2".to_string(), Some(true)).unwrap();
    assert_eq!(resp.approval.expires, Expiration::AtHeight(7));
    let err = query_nft_operator(&ops, &later, &alice, &"op2".to_string(), None).unwrap_err();
    assert_eq!(
        err,
        ContractError::OperatorNotFound {
            operator: "op2".to_string()
        }
    );
}

#[test]
fn an_expired_operator_grant_gives_no_approval_rights() {
    let (mut reg, mut ops) = setup_one_item("alice");
    let alice = "alice".to_string();
    let op = "operator".to_string();
    let bob = "bob".to_string();
    ops.approve_all_nft(
        &block_at(5, 50),
        &alice,
        &op,
        Some(Expiration::AtHeight(8)),
    )
    .unwrap();
    let later = block_at(9, 90);
    let err = approve_nft(&mut reg, &ops, &later, &op, &bob, 1, None).unwrap_err();
    assert_eq!(err, ContractError::NoAccessToApproveNftCauseGrantExpired);
}
