//! The mint gate: every mint request against a named group passes a fixed
//! sequence of checks, each failure fatal and distinct, in this order:
//! the group exists; the current time lies in its window; the requested
//! amount respects the per-call cap; the tendered payment covers the
//! price; the Merkle allow-list, if any, admits the recipient; and the
//! supply cap has room for the request.

use vstd::prelude::*;
use crate::error::ContractError;
use crate::expiration::BlockInfo;
use crate::merkle::{
    bytes_views, hash_account, spec_account_leaf, spec_merkle_fold, verify_merkle_proof,
};
use crate::mint_group::{group_exists, spec_group_at, MintGroup, MintGroups};

verus! {

/// Whether the group's allow-list admits the recipient with the supplied
/// proof: groups without a root admit everyone; a root demands a proof
/// that folds to it from the recipient's leaf.
pub open spec fn spec_merkle_gate_ok(
    g: MintGroup,
    recipient: Seq<char>,
    merkle_proof: Option<Vec<Vec<u8>>>,
) -> bool {
    match g.merkle_root {
        None => true,
        Some(root) => merkle_proof matches Some(p)
            && spec_merkle_fold(spec_account_leaf(recipient), bytes_views(p@)) == root@,
    }
}

/// Whether the whole gate admits the request.
pub open spec fn spec_can_mint(
    groups: Seq<MintGroup>,
    block: BlockInfo,
    mint_amount: u128,
    one_denom_in_base_denom: u128,
    recipient: Seq<char>,
    user_paid_amount: u128,
    name: Seq<char>,
    merkle_proof: Option<Vec<Vec<u8>>>,
    current_base_denom_supply: u128,
    max_nft_supply: u128,
) -> bool {
    &&& group_exists(groups, name)
    &&& {
        let g = spec_group_at(groups, name);
        let t = block.time_nanos / 1_000_000_000;
        &&& t >= g.start_time
        &&& t <= g.end_time
        &&& mint_amount <= g.max_base_denom_amount_per_mint
        &&& user_paid_amount >= g.price_per_base_denom * mint_amount
        &&& spec_merkle_gate_ok(g, recipient, merkle_proof)
    }
    &&& current_base_denom_supply + mint_amount
        <= max_nft_supply * one_denom_in_base_denom
}

/// Check that minting `mint_amount` more base-denom units keeps the
/// fungible supply within the cap.
pub fn assert_max_base_denom_supply_not_reached(
    current_base_denom_supply: u128,
    max_base_denom_supply: u128,
    mint_amount: u128,
) -> (r: Result<(), ContractError>)
    requires
        current_base_denom_supply + mint_amount <= u128::MAX,
    ensures
        match r {
            Ok(()) => current_base_denom_supply + mint_amount <= max_base_denom_supply,
            Err(e) => current_base_denom_supply + mint_amount > max_base_denom_supply
                && e == (ContractError::MaxBaseDenomSupplyReached {
                    current_base_denom_supply,
                    max_base_denom_supply,
                    mint_amount,
                }),
        },
{
    if current_base_denom_supply + mint_amount > max_base_denom_supply {
        return Err(ContractError::MaxBaseDenomSupplyReached {
            current_base_denom_supply,
            max_base_denom_supply,
            mint_amount,
        });
    }
    Ok(())
}

/// Check that minting `mint_amount` more items keeps the item supply
/// within the cap.
pub fn assert_max_nft_supply_not_reached(
    current_nft_supply: u128,
    max_nft_supply: u128,
    mint_amount: u128,
) -> (r: Result<(), ContractError>)
    requires
        current_nft_supply + mint_amount <= u128::MAX,
    ensures
        match r {
            Ok(()) => current_nft_supply + mint_amount <= max_nft_supply,
            Err(e) => current_nft_supply + mint_amount > max_nft_supply
                && e == (ContractError::MaxNftSupplyReached {
                    current_nft_supply,
                    max_nft_supply,
                    mint_amount,
                }),
        },
{
    if current_nft_supply + mint_amount > max_nft_supply {
        return Err(ContractError::MaxNftSupplyReached {
            current_nft_supply,
            max_nft_supply,
            mint_amount,
        });
    }
    Ok(())
}

/// The error a refused mint request comes back with: the first failing
/// condition, with the offending values.
pub open spec fn spec_gate_error(
    groups: Seq<MintGroup>,
    block: BlockInfo,
    mint_amount: u128,
    one_denom_in_base_denom: u128,
    recipient: Seq<char>,
    user_paid_amount: u128,
    name: Seq<char>,
    merkle_proof: Option<Vec<Vec<u8>>>,
    current_base_denom_supply: u128,
    max_nft_supply: u128,
    e: ContractError,
) -> bool {
    let gex = group_exists(groups, name);
    let g = spec_group_at(groups, name);
    let t = block.time_nanos / 1_000_000_000;
    match e {
        ContractError::MintGroupNotFound { name: nm } => nm@ == name && !gex,
        ContractError::MintGroupNotStarted { name: nm } => nm@ == name && gex
            && t < g.start_time,
        ContractError::MintGroupEnded { name: nm } => nm@ == name && gex
            && t >= g.start_time && t > g.end_time,
        ContractError::MintAmountExceedsMaxAmountPerMint {
            name: nm,
            mint_amount: ma,
            max_base_denom_amount_per_mint: mx,
        } => nm@ == name && gex && t >= g.start_time && t <= g.end_time
            && ma == mint_amount && mx == g.max_base_denom_amount_per_mint
            && mint_amount > g.max_base_denom_amount_per_mint,
        ContractError::InsufficientFundsToMint { required, paid } => gex
            && t >= g.start_time && t <= g.end_time
            && mint_amount <= g.max_base_denom_amount_per_mint
            && required == g.price_per_base_denom * mint_amount
            && paid == user_paid_amount && user_paid_amount < required,
        ContractError::MerkleProofRequiredForMintGroup { name: nm } => nm@ == name && gex
            && t >= g.start_time && t <= g.end_time
            && mint_amount <= g.max_base_denom_amount_per_mint
            && user_paid_amount >= g.price_per_base_denom * mint_amount
            && g.merkle_root is Some && merkle_proof is None,
        ContractError::InvalidMerkleProofForMintGroup { name: nm } => nm@ == name && gex
            && t >= g.start_time && t <= g.end_time
            && mint_amount <= g.max_base_denom_amount_per_mint
            && user_paid_amount >= g.price_per_base_denom * mint_amount
            && (g.merkle_root matches Some(root) && (merkle_proof matches Some(p)
                && spec_merkle_fold(spec_account_leaf(recipient), bytes_views(p@))
                    != root@)),
        ContractError::MaxBaseDenomSupplyReached {
            current_base_denom_supply: c,
            max_base_denom_supply: m,
            mint_amount: ma,
        } => gex && t >= g.start_time && t <= g.end_time
            && mint_amount <= g.max_base_denom_amount_per_mint
            && user_paid_amount >= g.price_per_base_denom * mint_amount
            && spec_merkle_gate_ok(g, recipient, merkle_proof)
            && c == current_base_denom_supply
            && m == max_nft_supply * one_denom_in_base_denom && ma == mint_amount
            && current_base_denom_supply + mint_amount
                > max_nft_supply * one_denom_in_base_denom,
        _ => false,
    }
}

/// Run the mint gate for a request against a named group. Succeeds exactly
/// when every check admits the request; otherwise reports the first
/// violated check as its own error.
pub fn assert_can_mint(
    mint_groups: &MintGroups,
    block: &BlockInfo,
    mint_amount: u128,
    one_denom_in_base_denom: u128,
    recipient_addr: &String,
    user_paid_amount: u128,
    mint_group_name: &String,
    merkle_proof: Option<Vec<Vec<u8>>>,
    current_base_denom_supply: u128,
    max_nft_supply: u128,
) -> (r: Result<(), ContractError>)
    requires
        mint_groups.wf(),
        group_exists(mint_groups.groups@, mint_group_name@)
            ==> spec_group_at(mint_groups.groups@, mint_group_name@).price_per_base_denom
                * mint_amount <= u128::MAX,
        current_base_denom_supply + mint_amount <= u128::MAX,
        max_nft_supply * one_denom_in_base_denom <= u128::MAX,
    ensures
        ({
            let admitted = spec_can_mint(
                mint_groups.groups@,
                *block,
                mint_amount,
                one_denom_in_base_denom,
                recipient_addr@,
                user_paid_amount,
                mint_group_name@,
                merkle_proof,
                current_base_denom_supply,
                max_nft_supply,
            );
            match r {
                Ok(()) => admitted,
                Err(e) => !admitted && spec_gate_error(
                    mint_groups.groups@,
                    *block,
                    mint_amount,
                    one_denom_in_base_denom,
                    recipient_addr@,
                    user_paid_amount,
                    mint_group_name@,
                    merkle_proof,
                    current_base_denom_supply,
                    max_nft_supply,
                    e,
                ),
            }
        }),
{
    let j = match mint_groups.find_group(mint_group_name) {
        Some(j) => j,
        None => {
            return Err(ContractError::MintGroupNotFound {
                name: mint_group_name.clone(),
            });
        },
    };
    let g = &mint_groups.groups[j];
    let t = block.time_seconds();
    if t < g.start_time {
        return Err(ContractError::MintGroupNotStarted { name: mint_group_name.clone() });
    }
    if t > g.end_time {
        return Err(ContractError::MintGroupEnded { name: mint_group_name.clone() });
    }
    if mint_amount > g.max_base_denom_amount_per_mint {
        return Err(ContractError::MintAmountExceedsMaxAmountPerMint {
            name: mint_group_name.clone(),
            mint_amount,
            max_base_denom_amount_per_mint: g.max_base_denom_amount_per_mint,
        });
    }
    let required_paid_amount = g.price_per_base_denom * mint_amount;
    if user_paid_amount < required_paid_amount {
        return Err(ContractError::InsufficientFundsToMint {
            required: required_paid_amount,
            paid: user_paid_amount,
        });
    }
    match &g.merkle_root {
        Some(root) => {
            match &merkle_proof {
                None => {
                    return Err(ContractError::MerkleProofRequiredForMintGroup {
                        name: mint_group_name.clone(),
                    });
                },
                Some(p) => {
                    let recipient_hash = hash_account(recipient_addr);
                    if !verify_merkle_proof(&recipient_hash, p, root) {
                        return Err(ContractError::InvalidMerkleProofForMintGroup {
                            name: mint_group_name.clone(),
                        });
                    }
                },
            }
        },
        None => (),
    }
    assert_max_base_denom_supply_not_reached(
        current_base_denom_supply,
        max_nft_supply * one_denom_in_base_denom,
        mint_amount,
    )
}

} // verus!
