use cw404_core::error::ContractError;
use cw404_core::expiration::BlockInfo;
use cw404_core::nft::{burn_nft, burn_nfts};
use cw404_core::operators::NftOperators;
use cw404_core::queries::{query_nft_info, query_nfts, query_recycled_nft_token_ids};
use cw404_core::registry::NftRegistry;

fn block_at(height: u64, seconds: u64) -> BlockInfo {
    BlockInfo {
        height,
        time_nanos: seconds * 1_000_000_000,
    }
}

#[test]
fn mint_allocates_fresh_ascending_ids() {
    let mut reg = NftRegistry::new(10);
    let alice = "alice".to_string();
    let ids = reg.batch_mint_nft(&alice, "https://meta", 3).unwrap();
    assert_eq!(ids, vec![1, 2, 3]);
    assert_eq!(reg.current_nft_supply, 3);
    assert_eq!(reg.count_owned(&alice), 3);
    assert_eq!(reg.count_owned(&"bob".to_string()), 0);
}

#[test]
fn mint_up_to_max_succeeds_one_more_fails_and_counters_unchanged() {
    let mut reg = NftRegistry::new(3);
    let alice = "alice".to_string();
    let ids = reg.batch_mint_nft(&alice, "https://meta", 3).unwrap();
    assert_eq!(ids, vec![1, 2, 3]);
    assert_eq!(reg.current_nft_supply, 3);
    let err = reg.batch_mint_nft(&alice, "https://meta", 1).unwrap_err();
    assert_eq!(
        err,
        ContractError::MaxNftSupplyReached {
            current_nft_supply: 3,
            max_nft_supply: 3,
            mint_amount: 1,
        }
    );
    assert_eq!(reg.current_nft_supply, 3);
    assert_eq!(reg.count_owned(&alice), 3);
    assert_eq!(
        query_recycled_nft_token_ids(&reg, None, None).recycled_nft_token_ids,
        Vec::<u128>::new()
    );
}

#[test]
fn mint_then_burn_all_recycles_exactly_those_ids_in_burn_order() {
    let mut reg = NftRegistry::new(10);
    let alice = "alice".to_string();
    let ids = reg.batch_mint_nft(&alice, "https://meta", 4).unwrap();
    assert_eq!(ids, vec![1, 2, 3, 4]);
    reg.batch_burn_nft(&alice, 4).unwrap();
    assert_eq!(reg.current_nft_supply, 0);
    assert_eq!(reg.count_owned(&alice), 0);
    assert_eq!(
        query_recycled_nft_token_ids(&reg, None, None).recycled_nft_token_ids,
        vec![1, 2, 3, 4]
    );
}

#[test]
fn burn_more_than_owned_fails_and_changes_nothing() {
    let mut reg = NftRegistry::new(10);
    let alice = "alice".to_string();
    reg.batch_mint_nft(&alice, "https://meta", 2).unwrap();
    let err = reg.batch_burn_nft(&alice, 3).unwrap_err();
    assert_eq!(
        err,
        ContractError::CannotBurnMoreNftThanOwned {
            available: 2,
            try_to_burn: 3,
        }
    );
    assert_eq!(reg.current_nft_supply, 2);
    assert_eq!(reg.count_owned(&alice), 2);
}

#[test]
fn burn_selects_lowest_ids_first() {
    let mut reg = NftRegistry::new(10);
    let alice = "alice".to_string();
    reg.batch_mint_nft(&alice, "https://meta", 3).unwrap();
    reg.batch_burn_nft(&alice, 2).unwrap();
    let tokens = query_nfts(&reg, &alice, None, None).tokens;
    assert_eq!(tokens, vec![3]);
    assert_eq!(
        query_recycled_nft_token_ids(&reg, None, None).recycled_nft_token_ids,
        vec![1, 2]
    );
}

#[test]
fn burning_id_seven_recycles_it_and_the_next_mint_pops_it_first() {
    let mut reg = NftRegistry::new(20);
    let alice = "alice".to_string();
    let bob = "bob".to_string();
    let ops = NftOperators::new();
    let block = block_at(1, 100);
    reg.batch_mint_nft(&alice, "https://meta", 8).unwrap();
    burn_nft(&mut reg, &ops, &block, &alice, 7).unwrap();
    assert_eq!(
        query_recycled_nft_token_ids(&reg, None, None).recycled_nft_token_ids,
        vec![7]
    );
    let ids = reg.batch_mint_nft(&bob, "https://meta", 2).unwrap();
    assert_eq!(ids, vec![7, 9]);
    assert_eq!(reg.count_owned(&bob), 2);
}

#[test]
fn minted_items_carry_the_derived_uri() {
    let mut reg = NftRegistry::new(10);
    let alice = "alice".to_string();
    reg.batch_mint_nft(&alice, "https://meta", 2).unwrap();
    let info = query_nft_info(&reg, 2).unwrap();
    assert_eq!(info.token_uri, Some("https://meta/2".to_string()));
    let err = query_nft_info(&reg, 5).unwrap_err();
    assert_eq!(err, ContractError::NftTokenIdNotFound { nft_token_id: 5 });
}

#[test]
fn recycled_ids_are_reused_fifo_across_owners() {
    let mut reg = NftRegistry::new(20);
    let alice = "alice".to_string();
    let bob = "bob".to_string();
    reg.batch_mint_nft(&alice, "https://meta", 5).unwrap();
    reg.batch_burn_nft(&alice, 3).unwrap();
    // Pool now holds 1, 2, 3 in burn order; alice keeps 4 and 5.
    let ids = reg.batch_mint_nft(&bob, "https://meta", 4).unwrap();
    assert_eq!(ids, vec![1, 2, 3, 6]);
    assert_eq!(
        query_recycled_nft_token_ids(&reg, None, None).recycled_nft_token_ids,
        Vec::<u128>::new()
    );
    assert_eq!(query_nfts(&reg, &alice, None, None).tokens, vec![4, 5]);
    assert_eq!(query_nfts(&reg, &bob, None, None).tokens, vec![1, 2, 3, 6]);
}

#[test]
fn burning_named_items_is_all_or_nothing() {
    let mut reg = NftRegistry::new(20);
    let alice = "alice".to_string();
    let bob = "bob".to_string();
    let ops = NftOperators::new();
    let block = block_at(1, 100);
    reg.batch_mint_nft(&alice, "https://meta", 4).unwrap();
    reg.batch_mint_nft(&bob, "https://meta", 1).unwrap();
    // One id of someone else poisons the whole batch: nothing burns.
    let err = burn_nfts(&mut reg, &ops, &block, &alice, &vec![1, 5]).unwrap_err();
    assert_eq!(err, ContractError::NoAccessToSendNftCauseGrantNotFound);
    assert_eq!(reg.current_nft_supply, 5);
    // A repeated id names an item that is already gone at its turn.
    let err = burn_nfts(&mut reg, &ops, &block, &alice, &vec![2, 2]).unwrap_err();
    assert_eq!(err, ContractError::NftTokenIdNotFound { nft_token_id: 2 });
    assert_eq!(reg.current_nft_supply, 5);
    // Distinct owned ids burn in the given order.
    burn_nfts(&mut reg, &ops, &block, &alice, &vec![3, 1]).unwrap();
    assert_eq!(reg.count_owned(&alice), 2);
    assert_eq!(
        query_recycled_nft_token_ids(&reg, None, None).recycled_nft_token_ids,
        vec![3, 1]
    );
}
