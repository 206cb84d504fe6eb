//! The pre-transfer hook the external ledger invokes before committing any
//! fungible transfer of the asset, including transfers that bypass the
//! contract's own entry points.
//!
//! The enforcing mode reconciles the item registry with the pending
//! balance change and vetoes the transfer, by returning an error, when
//! reconciliation is infeasible. The advisory mode observes the transfer
//! and never touches the registry. Both are pure functions of the state
//! and the balances handed in, so the host wiring stays a thin adapter.

use vstd::prelude::*;
use crate::error::ContractError;
use crate::ft::{force_transfer_ft, spec_transfer_reconciled};
use crate::reconcile::{spec_nft_delta_on_decrease, spec_nft_delta_on_increase};
use crate::registry::{owned_ids, NftRegistry};

verus! {

/// The pending amount expressed in the base denom: amounts already in the
/// base denom pass through; amounts in the display denom are scaled.
pub fn convert_to_base_denom_and_base_amount(
    denom: &String,
    amount: u128,
    metadata_base: &String,
    one_denom_in_base_denom: u128,
) -> (r: (String, u128))
    requires
        denom@ != metadata_base@ ==> amount * one_denom_in_base_denom <= u128::MAX,
    ensures
        r.0@ == metadata_base@,
        r.1 == if denom@ == metadata_base@ {
            amount as int
        } else {
            amount * one_denom_in_base_denom
        },
{
    if *denom == *metadata_base {
        (metadata_base.clone(), amount)
    } else {
        (metadata_base.clone(), amount * one_denom_in_base_denom)
    }
}

/// The enforcing pre-transfer hook: burn the items the sender's shrunken
/// balance no longer covers and mint the items the recipient's grown
/// balance now covers, from the balances as they stand before the
/// transfer. Any infeasibility is a typed error that vetoes the transfer,
/// with the registry untouched.
pub fn block_before_send(
    registry: &mut NftRegistry,
    amount: u128,
    denom: &String,
    one_denom_in_base_denom: u128,
    metadata_base: &String,
    base_uri: &str,
    from_addr: &String,
    to_addr: &String,
    from_ft_balance: u128,
    to_ft_balance: u128,
) -> (r: Result<(u128, u128), ContractError>)
    requires
        old(registry).wf(),
        one_denom_in_base_denom > 0,
        denom@ != metadata_base@ ==> amount * one_denom_in_base_denom <= u128::MAX,
        ({
            let base_amount = if denom@ == metadata_base@ {
                amount as int
            } else {
                amount * one_denom_in_base_denom
            };
            base_amount <= from_ft_balance && to_ft_balance + base_amount <= u128::MAX
        }),
    ensures
        final(registry).wf(),
        ({
            let base_amount = (if denom@ == metadata_base@ {
                amount as int
            } else {
                amount * one_denom_in_base_denom
            }) as u128;
            let bk = spec_nft_delta_on_decrease(
                from_ft_balance,
                base_amount,
                one_denom_in_base_denom,
            );
            let mk = spec_nft_delta_on_increase(
                to_ft_balance,
                base_amount,
                one_denom_in_base_denom,
            );
            let owned_before = owned_ids(old(registry).nfts@, from_addr@).len();
            match r {
                Ok((burned, minted)) => burned == bk && minted == mk
                    && bk <= owned_before
                    && old(registry).current_nft_supply - bk + mk
                        <= old(registry).max_nft_supply
                    && spec_transfer_reconciled(
                        *old(registry),
                        *final(registry),
                        from_addr@,
                        to_addr@,
                        base_uri@,
                        bk,
                        mk,
                    )
                    && final(registry).current_nft_supply
                        == old(registry).current_nft_supply - bk + mk
                    && (from_addr@ != to_addr@
                        ==> owned_ids(final(registry).nfts@, from_addr@).len()
                            == owned_before - bk
                            && owned_ids(final(registry).nfts@, to_addr@).len()
                                == owned_ids(old(registry).nfts@, to_addr@).len() + mk)
                    // An account whose item count matched its balance
                    // before the transfer matches it again afterward.
                    && (from_addr@ != to_addr@
                        && owned_before == from_ft_balance as int / one_denom_in_base_denom as int
                        && owned_ids(old(registry).nfts@, to_addr@).len()
                            == to_ft_balance as int / one_denom_in_base_denom as int
                        ==> owned_ids(final(registry).nfts@, from_addr@).len()
                            == (from_ft_balance - base_amount) / one_denom_in_base_denom as int
                            && owned_ids(final(registry).nfts@, to_addr@).len()
                                == (to_ft_balance + base_amount)
                                    / one_denom_in_base_denom as int)
                    && (forall|o: Seq<char>| o != from_addr@ && o != to_addr@
                        ==> owned_ids(final(registry).nfts@, o)
                            == owned_ids(old(registry).nfts@, o)),
                Err(e) => *final(registry) == *old(registry) && ((bk > owned_before
                    && e == (ContractError::CannotBurnMoreNftThanOwned {
                        available: owned_before as u128,
                        try_to_burn: bk as u128,
                    })) || (bk <= owned_before
                    && old(registry).current_nft_supply - bk + mk
                        > old(registry).max_nft_supply
                    && e == (ContractError::MaxNftSupplyReached {
                        current_nft_supply: (old(registry).current_nft_supply - bk) as u128,
                        max_nft_supply: old(registry).max_nft_supply,
                        mint_amount: mk as u128,
                    }))),
            }
        }),
{
    let converted = convert_to_base_denom_and_base_amount(
        denom,
        amount,
        metadata_base,
        one_denom_in_base_denom,
    );
    let base_amount = converted.1;
    force_transfer_ft(
        registry,
        base_amount,
        one_denom_in_base_denom,
        base_uri,
        from_addr,
        to_addr,
        from_ft_balance,
        to_ft_balance,
    )
}

/// The advisory pre-transfer hook: observe the transfer, change nothing,
/// and never veto.
pub fn track_before_send(
    registry: &mut NftRegistry,
    _amount: u128,
    _from_addr: &String,
    _to_addr: &String,
) -> (r: Result<(), ContractError>)
    requires
        old(registry).wf(),
    ensures
        final(registry).wf(),
        r is Ok,
        *final(registry) == *old(registry),
{
    Ok(())
}

} // verus!
