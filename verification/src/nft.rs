//! Item-level operations gated by the send authorization: transferring an
//! item to a new owner and burning an item into the recycled pool.
//!
//! The caller wraps these in the host messages that move the matching
//! fungible units alongside the item.

use vstd::prelude::*;
use crate::approvals::{assert_can_send, spec_can_send, spec_send_error};
use crate::error::ContractError;
use crate::expiration::BlockInfo;
use crate::operators::NftOperators;
use crate::registry::{burn_id_ok, nft_exists, spec_find_nft, transfer_ok, NftRegistry};

verus! {

/// Move the item to the recipient, clearing its approvals. The sender must
/// be the owner, hold an unexpired approval on the item, or hold an
/// unexpired operator grant from the owner.
pub fn transfer_nft_helper(
    registry: &mut NftRegistry,
    operators: &NftOperators,
    block: &BlockInfo,
    sender_addr: &String,
    recipient_addr: &String,
    token_id: u128,
) -> (r: Result<(), ContractError>)
    requires
        old(registry).wf(),
        operators.wf(),
    ensures
        final(registry).wf(),
        match r {
            Ok(()) => spec_can_send(
                old(registry).nfts@,
                operators.grants@,
                *block,
                sender_addr@,
                token_id,
            ) && transfer_ok(*old(registry), *final(registry), token_id, recipient_addr@),
            Err(e) => *final(registry) == *old(registry) && !spec_can_send(
                old(registry).nfts@,
                operators.grants@,
                *block,
                sender_addr@,
                token_id,
            ) && spec_send_error(
                old(registry).nfts@,
                operators.grants@,
                sender_addr@,
                token_id,
                e,
            ),
        },
{
    match assert_can_send(registry, operators, block, sender_addr, token_id) {
        Ok(()) => (),
        Err(e) => {
            return Err(e);
        },
    }
    match registry.transfer_nft_to(token_id, recipient_addr) {
        Ok(()) => Ok(()),
        Err(_) => {
            proof {
                assert(false);
            }
            Err(ContractError::NftTokenIdNotFound { nft_token_id: token_id })
        },
    }
}

/// Burn the item, moving its id to the tail of the recycled pool and
/// dropping the item supply by one. The sender must be authorized as for a
/// transfer.
pub fn burn_nft(
    registry: &mut NftRegistry,
    operators: &NftOperators,
    block: &BlockInfo,
    sender_addr: &String,
    token_id: u128,
) -> (r: Result<(), ContractError>)
    requires
        old(registry).wf(),
        operators.wf(),
    ensures
        final(registry).wf(),
        match r {
            Ok(()) => spec_can_send(
                old(registry).nfts@,
                operators.grants@,
                *block,
                sender_addr@,
                token_id,
            ) && burn_id_ok(*old(registry), *final(registry), token_id),
            Err(e) => *final(registry) == *old(registry) && !spec_can_send(
                old(registry).nfts@,
                operators.grants@,
                *block,
                sender_addr@,
                token_id,
            ) && spec_send_error(
                old(registry).nfts@,
                operators.grants@,
                sender_addr@,
                token_id,
                e,
            ),
        },
{
    match assert_can_send(registry, operators, block, sender_addr, token_id) {
        Ok(()) => (),
        Err(e) => {
            return Err(e);
        },
    }
    match registry.burn_nft_id(token_id) {
        Ok(()) => Ok(()),
        Err(_) => {
            proof {
                assert(false);
            }
            Err(ContractError::NftTokenIdNotFound { nft_token_id: token_id })
        },
    }
}

/// No id occurs twice.
pub open spec fn ids_distinct(ids: Seq<u128>) -> bool {
    forall|i: int, j: int| 0 <= i < j < ids.len() ==> ids[i] != ids[j]
}

/// The id at position `k` can still burn once the ids before it are gone:
/// it is not a repeat of an earlier id, and the sender may send it.
pub open spec fn spec_burnable_at(
    nfts: Seq<crate::registry::Nft>,
    grants: Seq<crate::operators::OperatorGrant>,
    block: BlockInfo,
    sender: Seq<char>,
    ids: Seq<u128>,
    k: int,
) -> bool {
    &&& !ids.take(k).contains(ids[k])
    &&& spec_can_send(nfts, grants, block, sender, ids[k])
}

/// How burning a list of named items changes the registry: exactly those
/// items disappear, their ids join the tail of the recycled pool in the
/// given order, and nothing else changes.
pub open spec fn burn_ids_ok(pre: NftRegistry, post: NftRegistry, ids: Seq<u128>) -> bool {
    &&& post.recycled_nft_ids@ == pre.recycled_nft_ids@ + ids
    &&& post.current_nft_supply == pre.current_nft_supply - ids.len()
    &&& post.max_nft_supply == pre.max_nft_supply
    &&& forall|x: u128| #[trigger] nft_exists(post.nfts@, x) == (nft_exists(pre.nfts@, x)
        && !ids.contains(x))
    &&& forall|x: u128| !ids.contains(x)
        ==> #[trigger] spec_find_nft(post.nfts@, x) == spec_find_nft(pre.nfts@, x)
}

/// Burn the named items, all or none: every id must name a distinct item
/// the sender may send, or the whole call fails with the first offending
/// id's condition and the registry untouched.
pub fn burn_nfts(
    registry: &mut NftRegistry,
    operators: &NftOperators,
    block: &BlockInfo,
    sender_addr: &String,
    token_ids: &Vec<u128>,
) -> (r: Result<(), ContractError>)
    requires
        old(registry).wf(),
        operators.wf(),
    ensures
        final(registry).wf(),
        match r {
            Ok(()) => (forall|k: int| 0 <= k < token_ids@.len()
                ==> #[trigger] spec_burnable_at(
                    old(registry).nfts@,
                    operators.grants@,
                    *block,
                    sender_addr@,
                    token_ids@,
                    k,
                )) && burn_ids_ok(*old(registry), *final(registry), token_ids@),
            Err(e) => *final(registry) == *old(registry) && exists|k: int|
                0 <= k < token_ids@.len() && !#[trigger] spec_burnable_at(
                    old(registry).nfts@,
                    operators.grants@,
                    *block,
                    sender_addr@,
                    token_ids@,
                    k,
                ) && (forall|j: int| 0 <= j < k ==> spec_burnable_at(
                    old(registry).nfts@,
                    operators.grants@,
                    *block,
                    sender_addr@,
                    token_ids@,
                    j,
                )) && if token_ids@.take(k).contains(token_ids@[k]) {
                    e == (ContractError::NftTokenIdNotFound { nft_token_id: token_ids@[k] })
                } else {
                    spec_send_error(
                        old(registry).nfts@,
                        operators.grants@,
                        sender_addr@,
                        token_ids@[k],
                        e,
                    )
                },
        },
{
    let ghost pre = *registry;
    let ghost idsv = token_ids@;
    let n = token_ids.len();
    // Validation pass: nothing burns unless every id can burn.
    for k in 0..n
        invariant
            *registry == pre,
            pre == *old(registry),
            pre.wf(),
            operators.wf(),
            n == idsv.len(),
            idsv == token_ids@,
            forall|j: int| 0 <= j < k ==> #[trigger] spec_burnable_at(
                pre.nfts@,
                operators.grants@,
                *block,
                sender_addr@,
                idsv,
                j,
            ),
    {
        for j in 0..k
            invariant
                *registry == pre,
                pre == *old(registry),
                pre.wf(),
                k < n == idsv.len(),
                idsv == token_ids@,
                forall|jj: int| 0 <= jj < j ==> idsv[jj] != idsv[k as int],
                forall|jj: int| 0 <= jj < k ==> #[trigger] spec_burnable_at(
                    pre.nfts@,
                    operators.grants@,
                    *block,
                    sender_addr@,
                    idsv,
                    jj,
                ),
        {
            if token_ids[j] == token_ids[k] {
                proof {
                    assert(idsv.take(k as int)[j as int] == idsv[k as int]);
                    assert(idsv.take(k as int).contains(idsv[k as int]));
                    assert(!spec_burnable_at(
                        pre.nfts@,
                        operators.grants@,
                        *block,
                        sender_addr@,
                        idsv,
                        k as int,
                    ));
                }
                return Err(ContractError::NftTokenIdNotFound {
                    nft_token_id: token_ids[k],
                });
            }
        }
        proof {
            assert(!idsv.take(k as int).contains(idsv[k as int])) by {
                if idsv.take(k as int).contains(idsv[k as int]) {
                    let w = choose|w: int| 0 <= w < idsv.take(k as int).len()
                        && idsv.take(k as int)[w] == idsv[k as int];
                    assert(idsv[w] == idsv[k as int]);
                }
            }
        }
        match assert_can_send(registry, operators, block, sender_addr, token_ids[k]) {
            Ok(()) => (),
            Err(e) => {
                proof {
                    assert(!spec_burnable_at(
                        pre.nfts@,
                        operators.grants@,
                        *block,
                        sender_addr@,
                        idsv,
                        k as int,
                    ));
                }
                return Err(e);
            },
        }
    }
    // Burn pass: each id is still present, so no step can fail.
    for k in 0..n
        invariant
            registry.wf(),
            pre.wf(),
            pre == *old(registry),
            n == idsv.len(),
            idsv == token_ids@,
            forall|j: int| 0 <= j < n ==> #[trigger] spec_burnable_at(
                pre.nfts@,
                operators.grants@,
                *block,
                sender_addr@,
                idsv,
                j,
            ),
            registry.recycled_nft_ids@ == pre.recycled_nft_ids@ + idsv.take(k as int),
            registry.current_nft_supply == pre.current_nft_supply - k,
            registry.max_nft_supply == pre.max_nft_supply,
            forall|x: u128| #[trigger] nft_exists(registry.nfts@, x) == (nft_exists(
                pre.nfts@,
                x,
            ) && !idsv.take(k as int).contains(x)),
            forall|x: u128| !idsv.take(k as int).contains(x)
                ==> #[trigger] spec_find_nft(registry.nfts@, x) == spec_find_nft(
                    pre.nfts@,
                    x,
                ),
    {
        let id = token_ids[k];
        proof {
            assert(spec_burnable_at(
                pre.nfts@,
                operators.grants@,
                *block,
                sender_addr@,
                idsv,
                k as int,
            ));
            assert(nft_exists(pre.nfts@, id));
            assert(nft_exists(registry.nfts@, id));
        }
        let ghost cur = *registry;
        match registry.burn_nft_id(id) {
            Ok(()) => (),
            Err(_) => {
                proof {
                    assert(false);
                }
                return Err(ContractError::NftTokenIdNotFound { nft_token_id: id });
            },
        }
        proof {
            assert(registry.recycled_nft_ids@ =~= pre.recycled_nft_ids@ + idsv.take(
                k + 1,
            ));
            assert forall|y: u128| idsv.take(k + 1).contains(y) == (idsv.take(
                k as int,
            ).contains(y) || y == id) by {
                let t0 = idsv.take(k as int);
                let t1 = idsv.take(k + 1);
                if t0.contains(y) {
                    let w = choose|w: int| 0 <= w < t0.len() && t0[w] == y;
                    assert(t1[w] == y);
                }
                if y == id {
                    assert(t1[k as int] == y);
                }
                if t1.contains(y) {
                    let w = choose|w: int| 0 <= w < t1.len() && t1[w] == y;
                    if w < k as int {
                        assert(t0[w] == y);
                    } else {
                        assert(y == id);
                    }
                }
            }
        }
    }
    proof {
        assert(idsv.take(n as int) =~= idsv);
    }
    Ok(())
}

} // verus!
