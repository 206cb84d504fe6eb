use cw404_core::error::ContractError;
use cw404_core::expiration::BlockInfo;
use cw404_core::gate::{assert_can_mint, assert_max_nft_supply_not_reached};
use cw404_core::mint_group::{MintGroup, MintGroups};
use sha3::{Digest, Keccak256};

fn block_at_seconds(seconds: u64) -> BlockInfo {
    BlockInfo {
        height: 1,
        time_nanos: seconds * 1_000_000_000,
    }
}

fn public_group() -> MintGroup {
    MintGroup {
        name: "public".to_string(),
        merkle_root: None,
        max_base_denom_amount_per_mint: 5_000_000,
        price_per_base_denom: 1_000_000,
        start_time: 100,
        end_time: 200,
    }
}

fn groups_with(group: MintGroup) -> MintGroups {
    let mut groups = MintGroups::new();
    groups.add_mint_group(group).unwrap();
    groups
}

fn keccak(data: &[u8]) -> Vec<u8> {
    Keccak256::digest(data).to_vec()
}

fn parent(a: &[u8], b: &[u8]) -> Vec<u8> {
    let mut h = Keccak256::new();
    if a < b {
        h.update(a);
        h.update(b);
    } else {
        h.update(b);
        h.update(a);
    }
    h.finalize().to_vec()
}

#[test]
fn duplicate_mint_group_names_are_rejected() {
    let mut groups = MintGroups::new();
    groups.add_mint_group(public_group()).unwrap();
    let err = groups.add_mint_group(public_group()).unwrap_err();
    assert_eq!(
        err,
        ContractError::DuplicateMintGroup {
            name: "public".to_string()
        }
    );
}

#[test]
fn minting_against_an_unknown_group_fails() {
    let groups = groups_with(public_group());
    let err = assert_can_mint(
        &groups,
        &block_at_seconds(150),
        1_000_000,
        1_000_000,
        &"alice".to_string(),
        1_000_000_000_000,
        &"allowlist".to_string(),
        None,
        0,
        1000,
    )
    .unwrap_err();
    assert_eq!(
        err,
        ContractError::MintGroupNotFound {
            name: "allowlist".to_string()
        }
    );
}

#[test]
fn not_started_and_ended_are_distinct_conditions() {
    let groups = groups_with(public_group());
    let err = assert_can_mint(
        &groups,
        &block_at_seconds(99),
        1_000_000,
        1_000_000,
        &"alice".to_string(),
        1_000_000_000_000,
        &"public".to_string(),
        None,
        0,
        1000,
    )
    .unwrap_err();
    assert_eq!(
        err,
        ContractError::MintGroupNotStarted {
            name: "public".to_string()
        }
    );
    let err = assert_can_mint(
        &groups,
        &block_at_seconds(201),
        1_000_000,
        1_000_000,
        &"alice".to_string(),
        1_000_000_000_000,
        &"public".to_string(),
        None,
        0,
        1000,
    )
    .unwrap_err();
    assert_eq!(
        err,
        ContractError::MintGroupEnded {
            name: "public".to_string()
        }
    );
}

#[test]
fn a_request_over_the_per_call_cap_is_rejected_regardless_of_payment() {
    let groups = groups_with(public_group());
    let err = assert_can_mint(
        &groups,
        &block_at_seconds(150),
        6_000_000,
        1_000_000,
        &"alice".to_string(),
        u128::MAX / 1_000_000,
        &"public".to_string(),
        None,
        0,
        1_000_000,
    )
    .unwrap_err();
    assert_eq!(
        err,
        ContractError::MintAmountExceedsMaxAmountPerMint {
            name: "public".to_string(),
            mint_amount: 6_000_000,
            max_base_denom_amount_per_mint: 5_000_000,
        }
    );
}

#[test]
fn underpayment_reports_the_exact_required_amount() {
    let groups = groups_with(public_group());
    let err = assert_can_mint(
        &groups,
        &block_at_seconds(150),
        2_000_000,
        1_000_000,
        &"alice".to_string(),
        1_999_999_999_999,
        &"public".to_string(),
        None,
        0,
        1000,
    )
    .unwrap_err();
    assert_eq!(
        err,
        ContractError::InsufficientFundsToMint {
            required: 2_000_000_000_000,
            paid: 1_999_999_999_999,
        }
    );
}

#[test]
fn the_supply_check_caps_the_fungible_supply_at_max_items_times_scale() {
    let groups = groups_with(public_group());
    // max 3 items at scale 1_000_000: cap is 3_000_000 base units.
    let err = assert_can_mint(
        &groups,
        &block_at_seconds(150),
        2_000_000,
        1_000_000,
        &"alice".to_string(),
        2_000_000_000_000,
        &"public".to_string(),
        None,
        1_500_000,
        3,
    )
    .unwrap_err();
    assert_eq!(
        err,
        ContractError::MaxBaseDenomSupplyReached {
            current_base_denom_supply: 1_500_000,
            max_base_denom_supply: 3_000_000,
            mint_amount: 2_000_000,
        }
    );
    assert_can_mint(
        &groups,
        &block_at_seconds(150),
        1_500_000,
        1_000_000,
        &"alice".to_string(),
        1_500_000_000_000,
        &"public".to_string(),
        None,
        1_500_000,
        3,
    )
    .unwrap();
}

#[test]
fn a_full_gate_pass_succeeds() {
    let groups = groups_with(public_group());
    assert_can_mint(
        &groups,
        &block_at_seconds(100),
        5_000_000,
        1_000_000,
        &"alice".to_string(),
        5_000_000_000_000,
        &"public".to_string(),
        None,
        0,
        1000,
    )
    .unwrap();
}

#[test]
fn the_allow_list_admits_committed_accounts_and_rejects_others() {
    let leaf1 = keccak(b"addr1");
    let leaf2 = keccak(b"addr2");
    let root = parent(&leaf1, &leaf2);
    let mut group = public_group();
    group.merkle_root = Some(root);
    let groups = groups_with(group);
    let block = block_at_seconds(150);

    // A committed account with the proof for the committed tree succeeds.
    assert_can_mint(
        &groups,
        &block,
        1_000_000,
        1_000_000,
        &"addr1".to_string(),
        1_000_000_000_000,
        &"public".to_string(),
        Some(vec![leaf2.clone()]),
        0,
        1000,
    )
    .unwrap();

    // A stranger is rejected whatever proof it supplies.
    let err = assert_can_mint(
        &groups,
        &block,
        1_000_000,
        1_000_000,
        &"addr3".to_string(),
        1_000_000_000_000,
        &"public".to_string(),
        Some(vec![leaf2.clone()]),
        0,
        1000,
    )
    .unwrap_err();
    assert_eq!(
        err,
        ContractError::InvalidMerkleProofForMintGroup {
            name: "public".to_string()
        }
    );
    // Even the other committed leaf handed in as a proof does not help.
    let err = assert_can_mint(
        &groups,
        &block,
        1_000_000,
        1_000_000,
        &"addr3".to_string(),
        1_000_000_000_000,
        &"public".to_string(),
        Some(vec![leaf1.clone()]),
        0,
        1000,
    )
    .unwrap_err();
    assert_eq!(
        err,
        ContractError::InvalidMerkleProofForMintGroup {
            name: "public".to_string()
        }
    );
}

#[test]
fn a_missing_proof_is_its_own_condition() {
    let leaf1 = keccak(b"addr1");
    let leaf2 = keccak(b"addr2");
    let root = parent(&leaf1, &leaf2);
    let mut group = public_group();
    group.merkle_root = Some(root);
    let groups = groups_with(group);
    let err = assert_can_mint(
        &groups,
        &block_at_seconds(150),
        1_000_000,
        1_000_000,
        &"addr1".to_string(),
        1_000_000_000_000,
        &"public".to_string(),
        None,
        0,
        1000,
    )
    .unwrap_err();
    assert_eq!(
        err,
        ContractError::MerkleProofRequiredForMintGroup {
            name: "public".to_string()
        }
    );
}

#[test]
fn a_deeper_tree_verifies_with_either_sibling_ordering() {
    let leaves: Vec<Vec<u8>> = ["a", "b", "c", "d"]
        .iter()
        .map(|s| keccak(s.as_bytes()))
        .collect();
    let n01 = parent(&leaves[0], &leaves[1]);
    let n23 = parent(&leaves[2], &leaves[3]);
    let root = parent(&n01, &n23);
    let mut group = public_group();
    group.merkle_root = Some(root);
    let groups = groups_with(group);
    // Proof for leaf "c": sibling leaf "d", then node (a,b).
    assert_can_mint(
        &groups,
        &block_at_seconds(150),
        1_000_000,
        1_000_000,
        &"c".to_string(),
        1_000_000_000_000,
        &"public".to_string(),
        Some(vec![leaves[3].clone(), n01]),
        0,
        1000,
    )
    .unwrap();
}

#[test]
fn the_item_supply_check_reports_its_own_error() {
    assert_max_nft_supply_not_reached(3, 5, 2).unwrap();
    let err = assert_max_nft_supply_not_reached(4, 5, 2).unwrap_err();
    assert_eq!(
        err,
        ContractError::MaxNftSupplyReached {
            current_nft_supply: 4,
            max_nft_supply: 5,
            mint_amount: 2,
        }
    );
}
