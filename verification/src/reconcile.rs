//! Reconciliation engine: from a before/after snapshot of an account's
//! fungible balance, compute how many items must be minted or burned so
//! that the account always owns `floor(balance / scale)` items.
//!
//! The caller reads the account's current balance from the external ledger
//! at call time and hands it in as a plain value.

use vstd::prelude::*;
use vstd::arithmetic::div_mod::lemma_div_is_ordered;

verus! {

/// How many whole items a fungible balance is worth: `floor(balance / scale)`.
pub open spec fn spec_nft_balance(ft_balance: u128, scale: u128) -> int
    recommends
        scale > 0,
{
    ft_balance as int / scale as int
}

/// Items to mint for a balance that grows by `amount`:
/// `floor((before + amount) / scale) - floor(before / scale)`.
pub open spec fn spec_nft_delta_on_increase(before: u128, amount: u128, scale: u128) -> int
    recommends
        scale > 0,
{
    (before + amount) / (scale as int) - before as int / scale as int
}

/// Items to burn for a balance that shrinks by `amount`:
/// `floor(before / scale) - floor((before - amount) / scale)`.
pub open spec fn spec_nft_delta_on_decrease(before: u128, amount: u128, scale: u128) -> int
    recommends
        scale > 0,
        amount <= before,
{
    before as int / scale as int - (before - amount) / (scale as int)
}

/// Items to mint when an account's fungible balance is about to grow from
/// `before_ft_balance` to `before_ft_balance + ft_mint_amount`.
pub fn calculate_nft_to_mint_for_ft_mint(
    before_ft_balance: u128,
    ft_mint_amount: u128,
    one_denom_in_base_denom: u128,
) -> (r: u128)
    requires
        one_denom_in_base_denom > 0,
        before_ft_balance + ft_mint_amount <= u128::MAX,
    ensures
        r == spec_nft_delta_on_increase(
            before_ft_balance,
            ft_mint_amount,
            one_denom_in_base_denom,
        ),
{
    let after_ft_balance = before_ft_balance + ft_mint_amount;
    let before_nft_balance = before_ft_balance / one_denom_in_base_denom;
    let after_nft_balance = after_ft_balance / one_denom_in_base_denom;
    proof {
        lemma_div_is_ordered(
            before_ft_balance as int,
            after_ft_balance as int,
            one_denom_in_base_denom as int,
        );
    }
    after_nft_balance - before_nft_balance
}

/// Items to burn when an account's fungible balance is about to shrink from
/// `before_ft_balance` to `before_ft_balance - ft_burn_amount`.
pub fn calculate_nft_to_burn_for_ft_burn(
    before_ft_balance: u128,
    ft_burn_amount: u128,
    one_denom_in_base_denom: u128,
) -> (r: u128)
    requires
        one_denom_in_base_denom > 0,
        ft_burn_amount <= before_ft_balance,
    ensures
        r == spec_nft_delta_on_decrease(
            before_ft_balance,
            ft_burn_amount,
            one_denom_in_base_denom,
        ),
{
    let after_ft_balance = before_ft_balance - ft_burn_amount;
    let before_nft_balance = before_ft_balance / one_denom_in_base_denom;
    let after_nft_balance = after_ft_balance / one_denom_in_base_denom;
    proof {
        lemma_div_is_ordered(
            after_ft_balance as int,
            before_ft_balance as int,
            one_denom_in_base_denom as int,
        );
    }
    before_nft_balance - after_nft_balance
}

} // verus!
