//! Contract configuration: roles, royalty routing target, and the display
//! metadata of the fungible denom, together with the role checks that gate
//! administrative calls.

use vstd::prelude::*;
use crate::error::ContractError;

verus! {

/// Display metadata of the fungible denom.
pub struct DenomMetadata {
    pub description: String,
    /// The base (smallest-unit) denom, e.g. `factory/<addr>/usub`.
    pub base: String,
    /// The display denom, one unit of which equals one item.
    pub display: String,
    pub name: String,
    pub symbol: String,
    /// Base uri of the item metadata; each item's uri is `<uri>/<id>`.
    pub uri: String,
    pub uri_hash: String,
}

/// The contract configuration.
pub struct Config {
    /// If set, the admin can mint, burn and force-transfer.
    pub admin_addr: Option<String>,
    /// The minter can mint through the mint gate.
    pub minter_addr: String,
    /// Creator of the collection.
    pub creator_addr: String,
    pub denom_metadata: DenomMetadata,
    /// Account that receives tendered mint payments.
    pub royalty_payment_addr: String,
    pub royalty_percentage: u64,
}

/// Overwrite the updatable configuration fields with the values supplied;
/// fields given as nothing keep their value. The caller has already
/// checked authorization and validated the addresses.
pub fn update_config(
    config: &mut Config,
    new_admin: Option<String>,
    new_minter: Option<String>,
    new_royalty_payment_address: Option<String>,
    new_royalty_percentage: Option<u64>,
)
    ensures
        final(config).admin_addr == (match new_admin {
            Some(a) => Some(a),
            None => old(config).admin_addr,
        }),
        final(config).minter_addr == (match new_minter {
            Some(m) => m,
            None => old(config).minter_addr,
        }),
        final(config).royalty_payment_addr == (match new_royalty_payment_address {
            Some(p) => p,
            None => old(config).royalty_payment_addr,
        }),
        final(config).royalty_percentage == (match new_royalty_percentage {
            Some(p) => p,
            None => old(config).royalty_percentage,
        }),
        final(config).creator_addr == old(config).creator_addr,
        final(config).denom_metadata == old(config).denom_metadata,
{
    match new_admin {
        Some(admin) => {
            config.admin_addr = Some(admin);
        },
        None => (),
    }
    match new_minter {
        Some(minter) => {
            config.minter_addr = minter;
        },
        None => (),
    }
    match new_royalty_payment_address {
        Some(addr) => {
            config.royalty_payment_addr = addr;
        },
        None => (),
    }
    match new_royalty_percentage {
        Some(pct) => {
            config.royalty_percentage = pct;
        },
        None => (),
    }
}

/// Check that the sender is the contract's admin; a contract without an
/// admin admits nobody, reported as its own condition.
pub fn assert_only_admin_can_call_this_function(
    sender: &String,
    admin: &Option<String>,
    function: &str,
) -> (r: Result<(), ContractError>)
    ensures
        match r {
            Ok(()) => admin matches Some(a) && a@ == sender@,
            Err(e) => match e {
                ContractError::OnlyAdminCanCallThisFunction { function: f } => (
                    admin matches Some(a) && a@ != sender@) && f@ == function@,
                ContractError::OnlyAdminCanCallThisFunctionButContractHasNoAdmin {
                    function: f,
                } => admin is None && f@ == function@,
                _ => false,
            },
        },
{
    match admin {
        Some(admin_addr) => {
            if *sender == *admin_addr {
                Ok(())
            } else {
                Err(ContractError::OnlyAdminCanCallThisFunction {
                    function: function.to_owned(),
                })
            }
        },
        None => Err(ContractError::OnlyAdminCanCallThisFunctionButContractHasNoAdmin {
            function: function.to_owned(),
        }),
    }
}

/// Check that the sender is the admin or the minter.
pub fn assert_only_admin_or_minter_can_mint(
    sender: &String,
    admin: &Option<String>,
    minter: &String,
) -> (r: Result<(), ContractError>)
    ensures
        match r {
            Ok(()) => (admin matches Some(a) && a@ == sender@) || minter@ == sender@,
            Err(e) => !((admin matches Some(a) && a@ == sender@) || minter@ == sender@)
                && e == ContractError::OnlyAdminOrMinterCanMint,
        },
{
    match admin {
        Some(admin_addr) => {
            if *sender == *admin_addr {
                return Ok(());
            }
        },
        None => (),
    }
    if *sender == *minter {
        return Ok(());
    }
    Err(ContractError::OnlyAdminOrMinterCanMint)
}

} // verus!
