use cw404_core::config::{
    assert_only_admin_can_call_this_function, assert_only_admin_or_minter_can_mint,
    update_config, Config, DenomMetadata,
};
use cw404_core::denom::{
    convert_base_denom_to_base_subdenom, convert_base_subdenom_to_subdenom,
    convert_subdenom_to_base_denom, convert_subdenom_to_base_subdenom,
    convert_subdenom_to_denom,
};
use cw404_core::error::ContractError;
use cw404_core::expiration::{BlockInfo, Expiration};
use cw404_core::queries::{query_balance, query_supply};
use cw404_core::registry::NftRegistry;
use cw404_core::token_id::{parse_token_id_from_string_to_uint128, u128_to_dec_string};

fn metadata() -> DenomMetadata {
    DenomMetadata {
        description: "a hybrid asset".to_string(),
        base: "factory/contract/usub".to_string(),
        display: "factory/contract/sub".to_string(),
        name: "Sub".to_string(),
        symbol: "SUB".to_string(),
        uri: "https://meta".to_string(),
        uri_hash: "".to_string(),
    }
}

fn config() -> Config {
    Config {
        admin_addr: Some("admin".to_string()),
        minter_addr: "minter".to_string(),
        creator_addr: "creator".to_string(),
        denom_metadata: metadata(),
        royalty_payment_addr: "royalty".to_string(),
        royalty_percentage: 5,
    }
}

#[test]
fn token_ids_render_and_parse_as_exact_inverses() {
    assert_eq!(u128_to_dec_string(0), "0");
    assert_eq!(u128_to_dec_string(12345), "12345");
    assert_eq!(
        u128_to_dec_string(u128::MAX),
        "340282366920938463463374607431768211455"
    );
    assert_eq!(
        parse_token_id_from_string_to_uint128(&"12345".to_string()).unwrap(),
        12345
    );
    assert_eq!(
        parse_token_id_from_string_to_uint128(
            &"340282366920938463463374607431768211455".to_string()
        )
        .unwrap(),
        u128::MAX
    );
    for bad in ["", "12a", "-3", "+7", "340282366920938463463374607431768211456"] {
        let err = parse_token_id_from_string_to_uint128(&bad.to_string()).unwrap_err();
        assert_eq!(
            err,
            ContractError::CannotParseTokenIdFromString {
                value: bad.to_string()
            }
        );
    }
}

#[test]
fn denom_names_convert_in_both_directions() {
    let contract = "contract".to_string();
    assert_eq!(convert_subdenom_to_base_subdenom("atom"), "uatom");
    assert_eq!(convert_base_subdenom_to_subdenom("uatom"), "atom");
    assert_eq!(
        convert_subdenom_to_denom("atom", &contract),
        "factory/contract/atom"
    );
    assert_eq!(
        convert_subdenom_to_base_denom("atom", &contract),
        "factory/contract/uatom"
    );
    assert_eq!(
        convert_base_denom_to_base_subdenom(&"factory/contract/uatom".to_string()).unwrap(),
        "uatom"
    );
    // A denom without a path keeps its whole name.
    assert_eq!(
        convert_base_denom_to_base_subdenom(&"uatom".to_string()).unwrap(),
        "uatom"
    );
    // A trailing slash leaves an empty segment.
    assert_eq!(
        convert_base_denom_to_base_subdenom(&"factory/contract/".to_string()).unwrap(),
        ""
    );
}

#[test]
fn expiry_points_compare_against_the_block_clock() {
    let block = BlockInfo {
        height: 10,
        time_nanos: 1_000,
    };
    assert!(Expiration::AtHeight(10).is_expired(&block));
    assert!(!Expiration::AtHeight(11).is_expired(&block));
    assert!(Expiration::AtTime(1_000).is_expired(&block));
    assert!(!Expiration::AtTime(1_001).is_expired(&block));
    assert!(!Expiration::Never.is_expired(&block));
    assert_eq!(block.time_seconds(), 0);
    let block = BlockInfo {
        height: 10,
        time_nanos: 2_500_000_000,
    };
    assert_eq!(block.time_seconds(), 2);
}

#[test]
fn update_config_overwrites_only_the_supplied_fields() {
    let mut cfg = config();
    update_config(&mut cfg, None, Some("minter2".to_string()), None, Some(7));
    assert_eq!(cfg.admin_addr, Some("admin".to_string()));
    assert_eq!(cfg.minter_addr, "minter2");
    assert_eq!(cfg.royalty_payment_addr, "royalty");
    assert_eq!(cfg.royalty_percentage, 7);
    update_config(
        &mut cfg,
        Some("admin2".to_string()),
        None,
        Some("royalty2".to_string()),
        None,
    );
    assert_eq!(cfg.admin_addr, Some("admin2".to_string()));
    assert_eq!(cfg.royalty_payment_addr, "royalty2");
}

#[test]
fn role_checks_distinguish_wrong_admin_from_no_admin() {
    let admin = Some("admin".to_string());
    assert_only_admin_can_call_this_function(&"admin".to_string(), &admin, "burn_ft").unwrap();
    let err = assert_only_admin_can_call_this_function(&"mallory".to_string(), &admin, "burn_ft")
        .unwrap_err();
    assert_eq!(
        err,
        ContractError::OnlyAdminCanCallThisFunction {
            function: "burn_ft".to_string()
        }
    );
    let err =
        assert_only_admin_can_call_this_function(&"admin".to_string(), &None, "burn_ft")
            .unwrap_err();
    assert_eq!(
        err,
        ContractError::OnlyAdminCanCallThisFunctionButContractHasNoAdmin {
            function: "burn_ft".to_string()
        }
    );
}

#[test]
fn the_minter_and_the_admin_may_mint_and_nobody_else() {
    let admin = Some("admin".to_string());
    let minter = "minter".to_string();
    assert_only_admin_or_minter_can_mint(&"admin".to_string(), &admin, &minter).unwrap();
    assert_only_admin_or_minter_can_mint(&"minter".to_string(), &admin, &minter).unwrap();
    assert_only_admin_or_minter_can_mint(&"minter".to_string(), &None, &minter).unwrap();
    let err =
        assert_only_admin_or_minter_can_mint(&"mallory".to_string(), &admin, &minter).unwrap_err();
    assert_eq!(err, ContractError::OnlyAdminOrMinterCanMint);
}

#[test]
fn balance_and_supply_views_mirror_the_scale() {
    let resp = query_balance(2_500_000, 1_000_000);
    assert_eq!(resp.nft_balance, 2);
    assert_eq!(resp.ft_balance, 2_500_000);
    let mut reg = NftRegistry::new(50);
    reg.batch_mint_nft(&"alice".to_string(), "https://meta", 4)
        .unwrap();
    let resp = query_supply(&reg, 4_200_000, 1_000_000);
    assert_eq!(resp.current_nft_supply, 4);
    assert_eq!(resp.max_nft_supply, 50);
    assert_eq!(resp.current_ft_supply, 4_200_000);
    assert_eq!(resp.max_ft_supply, 50_000_000);
}

#[test]
fn listing_queries_paginate_with_an_exclusive_bound() {
    let mut reg = NftRegistry::new(50);
    let alice = "alice".to_string();
    reg.batch_mint_nft(&alice, "https://meta", 25).unwrap();
    let page = cw404_core::queries::query_nfts(&reg, &alice, None, None).tokens;
    assert_eq!(page, (1..=10).collect::<Vec<u128>>());
    let page = cw404_core::queries::query_nfts(&reg, &alice, Some(10), Some(5)).tokens;
    assert_eq!(page, vec![11, 12, 13, 14, 15]);
    let page = cw404_core::queries::query_all_nfts(&reg, Some(23), Some(200)).tokens;
    assert_eq!(page, vec![24, 25]);
    reg.batch_burn_nft(&alice, 4).unwrap();
    let page = cw404_core::queries::query_recycled_nft_token_ids(&reg, Some(1), Some(2))
        .recycled_nft_token_ids;
    assert_eq!(page, vec![2, 3]);
}
