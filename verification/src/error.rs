//! Structured errors for every way an operation on the core can fail.
//!
//! Every error is fatal to the enclosing call: the caller discards all
//! partial effects. Amounts are never silently clamped to make a call
//! succeed; the violated condition is reported instead.

use vstd::prelude::*;

verus! {

/// The error taxonomy of the core: authorization, capacity, validity,
/// payment and not-found conditions, each as a distinct variant.
#[derive(Debug, PartialEq, Eq)]
pub enum ContractError {
    /// A mint group with the same name was already registered.
    DuplicateMintGroup { name: String },
    /// No mint group of that name exists.
    MintGroupNotFound { name: String },
    /// The current time is before the group's start time.
    MintGroupNotStarted { name: String },
    /// The current time is after the group's end time.
    MintGroupEnded { name: String },
    /// The requested fungible amount exceeds the group's per-call cap.
    MintAmountExceedsMaxAmountPerMint {
        name: String,
        mint_amount: u128,
        max_base_denom_amount_per_mint: u128,
    },
    /// The tendered payment is below `price_per_base_denom * mint_amount`.
    InsufficientFundsToMint { required: u128, paid: u128 },
    /// The group carries a Merkle allow-list but no proof was supplied.
    MerkleProofRequiredForMintGroup { name: String },
    /// The supplied Merkle proof does not fold to the group's root.
    InvalidMerkleProofForMintGroup { name: String },
    /// The caller is neither the admin nor the minter.
    OnlyAdminOrMinterCanMint,
    /// The caller is not the admin.
    OnlyAdminCanCallThisFunction { function: String },
    /// The function needs an admin but the contract has none set.
    OnlyAdminCanCallThisFunctionButContractHasNoAdmin { function: String },
    /// Minting would push the fungible supply past `max * scale`.
    MaxBaseDenomSupplyReached {
        current_base_denom_supply: u128,
        max_base_denom_supply: u128,
        mint_amount: u128,
    },
    /// Minting would push the item supply past the item supply cap.
    MaxNftSupplyReached {
        current_nft_supply: u128,
        max_nft_supply: u128,
        mint_amount: u128,
    },
    /// No item with this id exists in the registry.
    NftTokenIdNotFound { nft_token_id: u128 },
    /// The sender holds an operator grant from the owner, but it expired.
    NoAccessToSendNftCauseGrantExpired,
    /// The sender is not the owner and holds no approval or grant.
    NoAccessToSendNftCauseGrantNotFound,
    /// The sender's operator grant for approval updates expired.
    NoAccessToApproveNftCauseGrantExpired,
    /// The sender may not update approvals for this owner's items.
    NoAccessToApproveNftCauseGrantNotFound,
    /// The owner holds fewer items than the burn asks for.
    CannotBurnMoreNftThanOwned { available: u128, try_to_burn: u128 },
    /// The approval or grant being created is already expired.
    Expired,
    /// No approval for this spender exists on the item.
    ApprovalNotFound { spender: String },
    /// No operator grant exists for this owner and operator.
    OperatorNotFound { operator: String },
    /// The token id string is not a decimal 128-bit unsigned integer.
    CannotParseTokenIdFromString { value: String },
    /// The base denom string has no final path segment.
    CannotConvertBaseDenomToBaseSubdenom { base_denom: String },
}

} // verus!
