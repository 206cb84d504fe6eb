//! Fungible-side operations: administrative mint, burn and forced
//! transfer. Each one reconciles the item registry with the fungible
//! balance change it is about to cause, so the two views never diverge.
//!
//! The caller reads the relevant balances and the supply from the external
//! ledger at call time and hands them in; it also issues the ledger
//! instructions once the registry side has succeeded.

use vstd::prelude::*;
use crate::error::ContractError;
use crate::expiration::BlockInfo;
use crate::gate::{assert_can_mint, spec_can_mint, spec_gate_error};
use crate::mint_group::{group_exists, spec_group_at, MintGroups};
use crate::reconcile::{
    calculate_nft_to_burn_for_ft_burn, calculate_nft_to_mint_for_ft_mint,
    spec_nft_delta_on_decrease, spec_nft_delta_on_increase,
};
use crate::registry::{batch_burn_ok, batch_mint_ok, owned_ids, NftRegistry};

verus! {

/// The registry went through a burn of `bk` items of `from` followed by a
/// mint of `mk` items to `to`.
pub open spec fn spec_transfer_reconciled(
    pre: NftRegistry,
    post: NftRegistry,
    from: Seq<char>,
    to: Seq<char>,
    base_uri: Seq<char>,
    bk: int,
    mk: int,
) -> bool {
    exists|mid: NftRegistry| #[trigger] batch_burn_ok(pre, mid, from, bk)
        && batch_mint_ok(mid, post, mid.spec_minted_ids(mk), to, base_uri, mk)
}

/// Mint `mint_amount` base-denom units through the mint gate, minting the
/// matching items to the contract account, whose balance the minted funds
/// land on before being paid out.
pub fn mint_ft(
    registry: &mut NftRegistry,
    mint_groups: &MintGroups,
    block: &BlockInfo,
    mint_amount: u128,
    one_denom_in_base_denom: u128,
    base_uri: &str,
    contract_addr: &String,
    recipient_addr: &String,
    user_paid_amount: u128,
    mint_group_name: &String,
    merkle_proof: Option<Vec<Vec<u8>>>,
    current_base_denom_supply: u128,
    contract_ft_balance: u128,
) -> (r: Result<u128, ContractError>)
    requires
        old(registry).wf(),
        mint_groups.wf(),
        one_denom_in_base_denom > 0,
        group_exists(mint_groups.groups@, mint_group_name@)
            ==> spec_group_at(mint_groups.groups@, mint_group_name@).price_per_base_denom
                * mint_amount <= u128::MAX,
        current_base_denom_supply + mint_amount <= u128::MAX,
        old(registry).max_nft_supply * one_denom_in_base_denom <= u128::MAX,
        contract_ft_balance + mint_amount <= u128::MAX,
    ensures
        final(registry).wf(),
        ({
            let admitted = spec_can_mint(
                mint_groups.groups@,
                *block,
                mint_amount,
                one_denom_in_base_denom,
                recipient_addr@,
                user_paid_amount,
                mint_group_name@,
                merkle_proof,
                current_base_denom_supply,
                old(registry).max_nft_supply,
            );
            let k = spec_nft_delta_on_increase(
                contract_ft_balance,
                mint_amount,
                one_denom_in_base_denom,
            );
            match r {
                Ok(minted) => admitted && minted == k
                    && k <= old(registry).max_nft_supply - old(registry).current_nft_supply
                    && batch_mint_ok(
                        *old(registry),
                        *final(registry),
                        old(registry).spec_minted_ids(k),
                        contract_addr@,
                        base_uri@,
                        k,
                    ),
                Err(e) => *final(registry) == *old(registry) && ((!admitted
                    && spec_gate_error(
                        mint_groups.groups@,
                        *block,
                        mint_amount,
                        one_denom_in_base_denom,
                        recipient_addr@,
                        user_paid_amount,
                        mint_group_name@,
                        merkle_proof,
                        current_base_denom_supply,
                        old(registry).max_nft_supply,
                        e,
                    )) || (admitted
                    && k > old(registry).max_nft_supply - old(registry).current_nft_supply
                    && e == (ContractError::MaxNftSupplyReached {
                        current_nft_supply: old(registry).current_nft_supply,
                        max_nft_supply: old(registry).max_nft_supply,
                        mint_amount: k as u128,
                    }))),
            }
        }),
{
    match assert_can_mint(
        mint_groups,
        block,
        mint_amount,
        one_denom_in_base_denom,
        recipient_addr,
        user_paid_amount,
        mint_group_name,
        merkle_proof,
        current_base_denom_supply,
        registry.max_nft_supply,
    ) {
        Ok(()) => (),
        Err(e) => {
            return Err(e);
        },
    }
    let mint_nft_amount = calculate_nft_to_mint_for_ft_mint(
        contract_ft_balance,
        mint_amount,
        one_denom_in_base_denom,
    );
    match registry.batch_mint_nft(contract_addr, base_uri, mint_nft_amount) {
        Ok(_ids) => Ok(mint_nft_amount),
        Err(e) => Err(e),
    }
}

/// Burn `amount` base-denom units from the contract account, burning the
/// matching items it holds.
pub fn burn_ft(
    registry: &mut NftRegistry,
    amount: u128,
    one_denom_in_base_denom: u128,
    contract_addr: &String,
    contract_ft_balance: u128,
) -> (r: Result<u128, ContractError>)
    requires
        old(registry).wf(),
        one_denom_in_base_denom > 0,
        amount <= contract_ft_balance,
    ensures
        final(registry).wf(),
        ({
            let k = spec_nft_delta_on_decrease(
                contract_ft_balance,
                amount,
                one_denom_in_base_denom,
            );
            match r {
                Ok(burned) => burned == k
                    && k <= owned_ids(old(registry).nfts@, contract_addr@).len()
                    && batch_burn_ok(*old(registry), *final(registry), contract_addr@, k),
                Err(e) => *final(registry) == *old(registry)
                    && k > owned_ids(old(registry).nfts@, contract_addr@).len()
                    && e == (ContractError::CannotBurnMoreNftThanOwned {
                        available: owned_ids(old(registry).nfts@, contract_addr@).len()
                            as u128,
                        try_to_burn: k as u128,
                    }),
            }
        }),
{
    let burn_nft_amount = calculate_nft_to_burn_for_ft_burn(
        contract_ft_balance,
        amount,
        one_denom_in_base_denom,
    );
    match registry.batch_burn_nft(contract_addr, burn_nft_amount) {
        Ok(()) => Ok(burn_nft_amount),
        Err(e) => Err(e),
    }
}

/// Force-transfer `amount` base-denom units from one account to another,
/// burning the sender's uncovered items and minting the recipient's newly
/// covered items. Infeasibility on either side is reported as a typed
/// error, with the registry untouched.
pub fn force_transfer_ft(
    registry: &mut NftRegistry,
    amount: u128,
    one_denom_in_base_denom: u128,
    base_uri: &str,
    from_addr: &String,
    to_addr: &String,
    from_ft_balance: u128,
    to_ft_balance: u128,
) -> (r: Result<(u128, u128), ContractError>)
    requires
        old(registry).wf(),
        one_denom_in_base_denom > 0,
        amount <= from_ft_balance,
        to_ft_balance + amount <= u128::MAX,
    ensures
        final(registry).wf(),
        ({
            let bk = spec_nft_delta_on_decrease(
                from_ft_balance,
                amount,
                one_denom_in_base_denom,
            );
            let mk = spec_nft_delta_on_increase(
                to_ft_balance,
                amount,
                one_denom_in_base_denom,
            );
            let owned_before = owned_ids(old(registry).nfts@, from_addr@).len();
            match r {
                Ok((burned, minted)) => burned == bk && minted == mk
                    && bk <= owned_before
                    && old(registry).current_nft_supply - bk + mk
                        <= old(registry).max_nft_supply
                    && spec_transfer_reconciled(
                        *old(registry),
                        *final(registry),
                        from_addr@,
                        to_addr@,
                        base_uri@,
                        bk,
                        mk,
                    )
                    && final(registry).current_nft_supply
                        == old(registry).current_nft_supply - bk + mk
                    && (from_addr@ != to_addr@
                        ==> owned_ids(final(registry).nfts@, from_addr@).len()
                            == owned_before - bk
                            && owned_ids(final(registry).nfts@, to_addr@).len()
                                == owned_ids(old(registry).nfts@, to_addr@).len() + mk)
                    && (forall|o: Seq<char>| o != from_addr@ && o != to_addr@
                        ==> owned_ids(final(registry).nfts@, o)
                            == owned_ids(old(registry).nfts@, o)),
                Err(e) => *final(registry) == *old(registry) && ((bk > owned_before
                    && e == (ContractError::CannotBurnMoreNftThanOwned {
                        available: owned_before as u128,
                        try_to_burn: bk as u128,
                    })) || (bk <= owned_before
                    && old(registry).current_nft_supply - bk + mk
                        > old(registry).max_nft_supply
                    && e == (ContractError::MaxNftSupplyReached {
                        current_nft_supply: (old(registry).current_nft_supply - bk) as u128,
                        max_nft_supply: old(registry).max_nft_supply,
                        mint_amount: mk as u128,
                    }))),
            }
        }),
{
    let ghost pre = *registry;
    let burn_nft_amount = calculate_nft_to_burn_for_ft_burn(
        from_ft_balance,
        amount,
        one_denom_in_base_denom,
    );
    let mint_nft_amount = calculate_nft_to_mint_for_ft_mint(
        to_ft_balance,
        amount,
        one_denom_in_base_denom,
    );
    let owned_count = registry.count_owned(from_addr);
    if owned_count < burn_nft_amount {
        return Err(ContractError::CannotBurnMoreNftThanOwned {
            available: owned_count,
            try_to_burn: burn_nft_amount,
        });
    }
    proof {
        crate::registry::lemma_owned_ids_exist(registry.nfts@, from_addr@);
    }
    let after_burn_supply = registry.current_nft_supply - burn_nft_amount;
    if mint_nft_amount > registry.max_nft_supply - after_burn_supply {
        return Err(ContractError::MaxNftSupplyReached {
            current_nft_supply: after_burn_supply,
            max_nft_supply: registry.max_nft_supply,
            mint_amount: mint_nft_amount,
        });
    }
    match registry.batch_burn_nft(from_addr, burn_nft_amount) {
        Ok(()) => (),
        Err(_) => {
            proof {
                assert(false);
            }
            return Err(ContractError::CannotBurnMoreNftThanOwned {
                available: owned_count,
                try_to_burn: burn_nft_amount,
            });
        },
    }
    let ghost mid = *registry;
    match registry.batch_mint_nft(to_addr, base_uri, mint_nft_amount) {
        Ok(_ids) => {
            proof {
                assert(batch_burn_ok(pre, mid, from_addr@, burn_nft_amount as int));
                assert(batch_mint_ok(
                    mid,
                    *registry,
                    mid.spec_minted_ids(mint_nft_amount as int),
                    to_addr@,
                    base_uri@,
                    mint_nft_amount as int,
                ));
                assert(spec_transfer_reconciled(
                    pre,
                    *registry,
                    from_addr@,
                    to_addr@,
                    base_uri@,
                    burn_nft_amount as int,
                    mint_nft_amount as int,
                ));
            }
            Ok((burn_nft_amount, mint_nft_amount))
        },
        Err(_) => {
            proof {
                assert(false);
            }
            Err(ContractError::MaxNftSupplyReached {
                current_nft_supply: after_burn_supply,
                max_nft_supply: registry.max_nft_supply,
                mint_amount: mint_nft_amount,
            })
        },
    }
}

} // verus!
