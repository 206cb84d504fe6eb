use cw404_core::error::ContractError;
use cw404_core::expiration::BlockInfo;
use cw404_core::ft::{burn_ft, force_transfer_ft, mint_ft};
use cw404_core::hook::{block_before_send, convert_to_base_denom_and_base_amount, track_before_send};
use cw404_core::mint_group::{MintGroup, MintGroups};
use cw404_core::queries::{query_nfts, query_recycled_nft_token_ids};
use cw404_core::reconcile::{calculate_nft_to_burn_for_ft_burn, calculate_nft_to_mint_for_ft_mint};
use cw404_core::registry::NftRegistry;

const SCALE: u128 = 1_000_000;

#[test]
fn an_increase_mints_one_item_per_whole_unit_crossed() {
    // Balance 0 receiving 2_500_000 units covers 2 whole items.
    assert_eq!(calculate_nft_to_mint_for_ft_mint(0, 2_500_000, SCALE), 2);
    // A further 400_000 stays below the next whole unit: no item.
    assert_eq!(
        calculate_nft_to_mint_for_ft_mint(2_500_000, 400_000, SCALE),
        0
    );
    assert_eq!(
        calculate_nft_to_mint_for_ft_mint(2_900_000, 100_000, SCALE),
        1
    );
}

#[test]
fn a_decrease_burns_one_item_per_whole_unit_crossed() {
    assert_eq!(
        calculate_nft_to_burn_for_ft_burn(2_900_000, 1_000_000, SCALE),
        1
    );
    assert_eq!(
        calculate_nft_to_burn_for_ft_burn(2_500_000, 400_000, SCALE),
        0
    );
    assert_eq!(
        calculate_nft_to_burn_for_ft_burn(2_500_000, 2_500_000, SCALE),
        2
    );
}

#[test]
fn the_enforcing_hook_keeps_both_accounts_reconciled() {
    let mut reg = NftRegistry::new(100);
    let alice = "alice".to_string();
    let bob = "bob".to_string();
    let base = "factory/contract/usub".to_string();
    // Alice holds 2_500_000 units and the matching 2 items.
    reg.batch_mint_nft(&alice, "https://meta", 2).unwrap();
    // She sends 1_000_000 to Bob, who holds 500_000 and no item.
    let (burned, minted) = block_before_send(
        &mut reg,
        1_000_000,
        &base,
        SCALE,
        &base,
        "https://meta",
        &alice,
        &bob,
        2_500_000,
        500_000,
    )
    .unwrap();
    assert_eq!((burned, minted), (1, 1));
    // Alice keeps floor(1.5) = 1 item, Bob now covers floor(1.5) = 1.
    assert_eq!(reg.count_owned(&alice), 1);
    assert_eq!(reg.count_owned(&bob), 1);
    // Alice's lowest id was burned and immediately recycled to Bob.
    assert_eq!(query_nfts(&reg, &alice, None, None).tokens, vec![2]);
    assert_eq!(query_nfts(&reg, &bob, None, None).tokens, vec![1]);
    assert_eq!(
        query_recycled_nft_token_ids(&reg, None, None).recycled_nft_token_ids,
        Vec::<u128>::new()
    );
}

#[test]
fn the_enforcing_hook_vetoes_an_uncoverable_burn() {
    let mut reg = NftRegistry::new(100);
    let alice = "alice".to_string();
    let bob = "bob".to_string();
    let base = "factory/contract/usub".to_string();
    // Drifted state: Alice's balance says 2 items but she owns none.
    let err = block_before_send(
        &mut reg,
        1_500_000,
        &base,
        SCALE,
        &base,
        "https://meta",
        &alice,
        &bob,
        2_500_000,
        0,
    )
    .unwrap_err();
    assert_eq!(
        err,
        ContractError::CannotBurnMoreNftThanOwned {
            available: 0,
            try_to_burn: 1,
        }
    );
    assert_eq!(reg.current_nft_supply, 0);
}

#[test]
fn the_advisory_hook_observes_and_changes_nothing() {
    let mut reg = NftRegistry::new(100);
    let alice = "alice".to_string();
    let bob = "bob".to_string();
    reg.batch_mint_nft(&alice, "https://meta", 2).unwrap();
    track_before_send(&mut reg, 1_000_000, &alice, &bob).unwrap();
    assert_eq!(reg.count_owned(&alice), 2);
    assert_eq!(reg.count_owned(&bob), 0);
}

#[test]
fn display_denom_amounts_are_scaled_to_the_base_denom() {
    let base = "factory/contract/usub".to_string();
    let display = "factory/contract/sub".to_string();
    let (denom, amount) = convert_to_base_denom_and_base_amount(&base, 42, &base, SCALE);
    assert_eq!(denom, base);
    assert_eq!(amount, 42);
    let (denom, amount) = convert_to_base_denom_and_base_amount(&display, 3, &base, SCALE);
    assert_eq!(denom, base);
    assert_eq!(amount, 3_000_000);
}

#[test]
fn mint_ft_passes_the_gate_and_mints_the_covered_items() {
    let mut reg = NftRegistry::new(100);
    let mut groups = MintGroups::new();
    groups
        .add_mint_group(MintGroup {
            name: "public".to_string(),
            merkle_root: None,
            max_base_denom_amount_per_mint: 5_000_000,
            price_per_base_denom: 0,
            start_time: 100,
            end_time: 200,
        })
        .unwrap();
    let block = BlockInfo {
        height: 1,
        time_nanos: 150 * 1_000_000_000,
    };
    let contract = "contract".to_string();
    let recipient = "alice".to_string();
    let name = "public".to_string();
    let minted = mint_ft(
        &mut reg,
        &groups,
        &block,
        2_500_000,
        SCALE,
        "https://meta",
        &contract,
        &recipient,
        0,
        &name,
        None,
        0,
        0,
    )
    .unwrap();
    assert_eq!(minted, 2);
    assert_eq!(reg.count_owned(&contract), 2);
    // A second mint on top of the contract's new balance rounds correctly.
    let minted = mint_ft(
        &mut reg,
        &groups,
        &block,
        600_000,
        SCALE,
        "https://meta",
        &contract,
        &recipient,
        0,
        &name,
        None,
        2_500_000,
        2_500_000,
    )
    .unwrap();
    assert_eq!(minted, 1);
    assert_eq!(reg.count_owned(&contract), 3);
}

#[test]
fn burn_ft_burns_the_uncovered_items() {
    let mut reg = NftRegistry::new(100);
    let contract = "contract".to_string();
    reg.batch_mint_nft(&contract, "https://meta", 3).unwrap();
    let burned = burn_ft(&mut reg, 1_200_000, SCALE, &contract, 3_000_000).unwrap();
    assert_eq!(burned, 2);
    assert_eq!(reg.count_owned(&contract), 1);
    assert_eq!(
        query_recycled_nft_token_ids(&reg, None, None).recycled_nft_token_ids,
        vec![1, 2]
    );
}

#[test]
fn force_transfer_reconciles_both_sides() {
    let mut reg = NftRegistry::new(100);
    let alice = "alice".to_string();
    let bob = "bob".to_string();
    reg.batch_mint_nft(&alice, "https://meta", 3).unwrap();
    let (burned, minted) = force_transfer_ft(
        &mut reg,
        2_000_000,
        SCALE,
        "https://meta",
        &alice,
        &bob,
        3_000_000,
        900_000,
    )
    .unwrap();
    assert_eq!((burned, minted), (2, 2));
    assert_eq!(reg.count_owned(&alice), 1);
    assert_eq!(reg.count_owned(&bob), 2);
    assert_eq!(query_nfts(&reg, &bob, None, None).tokens, vec![1, 2]);
}
