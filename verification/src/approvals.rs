//! Per-item approvals and the authorization rules built on them.
//!
//! An item's owner, an unexpired per-item approval, or an unexpired
//! operator grant from the owner may send the item; the owner or an
//! unexpired operator may update its approvals. Approving replaces any
//! earlier approval for the same spender; revoking an absent approval
//! succeeds silently.

use vstd::prelude::*;
use crate::expiration::{BlockInfo, Expiration};
use crate::error::ContractError;
use crate::registry::{
    distinct_spenders, nft_exists, nft_unchanged_except, spec_find_nft, NftApproval,
    NftRegistry,
};
use crate::operators::{grant_exists, spec_grant_expiry, NftOperators};

verus! {

/// The first approval for the spender, scanning left to right. With
/// distinct spenders there is at most one.
pub open spec fn spec_find_approval(s: Seq<NftApproval>, spender: Seq<char>) -> Option<
    NftApproval,
>
    decreases s.len(),
{
    if s.len() == 0 {
        None
    } else if s[0].spender@ == spender {
        Some(s[0])
    } else {
        spec_find_approval(s.drop_first(), spender)
    }
}

/// Whether some approval for the spender has not yet expired.
pub open spec fn spec_has_valid_approval(
    s: Seq<NftApproval>,
    spender: Seq<char>,
    block: BlockInfo,
) -> bool {
    exists|i: int| 0 <= i < s.len() && (#[trigger] s[i]).spender@ == spender
        && !s[i].expires.spec_is_expired(block)
}

/// The approval list with every approval for the spender removed.
pub open spec fn spec_without_spender(s: Seq<NftApproval>, spender: Seq<char>) -> Seq<
    NftApproval,
>
    decreases s.len(),
{
    if s.len() == 0 {
        Seq::empty()
    } else if s[0].spender@ == spender {
        spec_without_spender(s.drop_first(), spender)
    } else {
        seq![s[0]] + spec_without_spender(s.drop_first(), spender)
    }
}

/// Every approval the removal keeps belongs to another spender and was
/// present before.
pub proof fn lemma_without_spender_membership(s: Seq<NftApproval>, spender: Seq<char>)
    ensures
        forall|i: int| 0 <= i < spec_without_spender(s, spender).len()
            ==> (#[trigger] spec_without_spender(s, spender)[i]).spender@ != spender,
        forall|i: int| 0 <= i < spec_without_spender(s, spender).len()
            ==> exists|k: int| 0 <= k < s.len()
                && s[k] == #[trigger] spec_without_spender(s, spender)[i],
        spec_without_spender(s, spender).len() <= s.len(),
    decreases s.len(),
{
    let w = spec_without_spender(s, spender);
    if s.len() > 0 {
        let rest = s.drop_first();
        lemma_without_spender_membership(rest, spender);
        let wr = spec_without_spender(rest, spender);
        assert(forall|k: int| 0 <= k < rest.len() ==> rest[k] == s[k + 1]);
        if s[0].spender@ == spender {
            assert forall|i: int| 0 <= i < w.len() implies
                exists|k: int| 0 <= k < s.len() && s[k] == #[trigger] w[i] by {
                let k = choose|k: int| 0 <= k < rest.len() && rest[k] == w[i];
                assert(s[k + 1] == w[i]);
            }
        } else {
            assert(w == seq![s[0]] + wr);
            assert(w[0] == s[0]);
            assert(forall|i: int| 1 <= i < w.len() ==> w[i] == wr[i - 1]);
            assert forall|i: int| 0 <= i < w.len() implies
                exists|k: int| 0 <= k < s.len() && s[k] == #[trigger] w[i] by {
                if i == 0 {
                    assert(s[0] == w[0]);
                } else {
                    let k = choose|k: int| 0 <= k < rest.len() && rest[k] == wr[i - 1];
                    assert(s[k + 1] == w[i]);
                }
            }
        }
    }
}

/// Removal preserves the distinct-spenders invariant.
pub proof fn lemma_without_spender_distinct(s: Seq<NftApproval>, spender: Seq<char>)
    requires
        distinct_spenders(s),
    ensures
        distinct_spenders(spec_without_spender(s, spender)),
    decreases s.len(),
{
    let w = spec_without_spender(s, spender);
    if s.len() > 0 {
        let rest = s.drop_first();
        assert(forall|k: int| 0 <= k < rest.len() ==> rest[k] == s[k + 1]);
        assert(distinct_spenders(rest));
        lemma_without_spender_distinct(rest, spender);
        lemma_without_spender_membership(rest, spender);
        let wr = spec_without_spender(rest, spender);
        if s[0].spender@ != spender {
            assert(w == seq![s[0]] + wr);
            assert(forall|i: int| 1 <= i < w.len() ==> w[i] == wr[i - 1]);
            assert forall|i: int, j: int| 0 <= i < j < w.len() implies
                (#[trigger] w[i]).spender@ != (#[trigger] w[j]).spender@ by {
                if i == 0 {
                    let k = choose|k: int| 0 <= k < rest.len() && rest[k] == wr[j - 1];
                    assert(w[j] == s[k + 1]);
                    assert(s[0].spender@ != s[k + 1].spender@);
                } else {
                    assert(wr[i - 1].spender@ != wr[j - 1].spender@);
                }
            }
        }
    }
}

/// Removing an absent spender changes nothing.
pub proof fn lemma_without_spender_absent(s: Seq<NftApproval>, spender: Seq<char>)
    requires
        spec_find_approval(s, spender) is None,
    ensures
        spec_without_spender(s, spender) == s,
    decreases s.len(),
{
    if s.len() > 0 {
        let rest = s.drop_first();
        lemma_without_spender_absent(rest, spender);
        assert(spec_without_spender(s, spender) =~= s);
    }
}

/// A scan finds an approval for the spender exactly when one is present.
pub proof fn lemma_find_approval_props(s: Seq<NftApproval>, spender: Seq<char>)
    ensures
        (spec_find_approval(s, spender) is Some) == exists|i: int|
            0 <= i < s.len() && (#[trigger] s[i]).spender@ == spender,
    decreases s.len(),
{
    if s.len() > 0 {
        lemma_find_approval_props(s.drop_first(), spender);
        assert(forall|k: int| 0 <= k < s.drop_first().len()
            ==> s.drop_first()[k] == s[k + 1]);
        if s[0].spender@ != spender {
            if spec_find_approval(s.drop_first(), spender) is Some {
                let k = choose|k: int| 0 <= k < s.drop_first().len()
                    && (#[trigger] s.drop_first()[k]).spender@ == spender;
                assert(s[k + 1].spender@ == spender);
            }
            if exists|i: int| 0 <= i < s.len() && (#[trigger] s[i]).spender@ == spender {
                let i = choose|i: int| 0 <= i < s.len()
                    && (#[trigger] s[i]).spender@ == spender;
                assert(i != 0);
                assert(s.drop_first()[i - 1].spender@ == spender);
            }
        }
    }
}

/// Whether the list holds an approval for the spender.
fn has_approval_for(approvals: &Vec<NftApproval>, spender: &String) -> (r: bool)
    ensures
        r == (spec_find_approval(approvals@, spender@) is Some),
{
    let n = approvals.len();
    for j in 0..n
        invariant
            n == approvals@.len(),
            forall|i: int| 0 <= i < j
                ==> (#[trigger] approvals@[i]).spender@ != spender@,
    {
        if approvals[j].spender == *spender {
            proof {
                lemma_find_approval_props(approvals@, spender@);
            }
            return true;
        }
    }
    proof {
        lemma_find_approval_props(approvals@, spender@);
    }
    false
}

/// Whether `sender` may update approvals on items of `owner`: the owner
/// may, and so may an operator whose grant has not expired.
pub open spec fn spec_can_update_approvals(
    grants: Seq<crate::operators::OperatorGrant>,
    block: BlockInfo,
    owner: Seq<char>,
    sender: Seq<char>,
) -> bool {
    ||| owner == sender
    ||| (grant_exists(grants, owner, sender)
        && !spec_grant_expiry(grants, owner, sender).spec_is_expired(block))
}

/// Whether `sender` may send (transfer, send or burn) the item: the owner
/// may, and so may a spender with an unexpired approval on the item, and an
/// operator with an unexpired grant from the owner.
pub open spec fn spec_can_send(
    nfts: Seq<crate::registry::Nft>,
    grants: Seq<crate::operators::OperatorGrant>,
    block: BlockInfo,
    sender: Seq<char>,
    id: u128,
) -> bool {
    spec_find_nft(nfts, id) matches Some(n) && {
        ||| n.owner@ == sender
        ||| spec_has_valid_approval(n.approvals@, sender, block)
        ||| (grant_exists(grants, n.owner@, sender)
            && !spec_grant_expiry(grants, n.owner@, sender).spec_is_expired(block))
    }
}

/// Check that `sender` may update approvals on items of `owner`, reporting
/// an expired grant and a missing grant as distinct conditions.
pub fn assert_can_update_approvals(
    operators: &NftOperators,
    block: &BlockInfo,
    owner_addr: &String,
    sender_addr: &String,
) -> (r: Result<(), ContractError>)
    requires
        operators.wf(),
    ensures
        match r {
            Ok(()) => spec_can_update_approvals(
                operators.grants@,
                *block,
                owner_addr@,
                sender_addr@,
            ),
            Err(e) => !spec_can_update_approvals(
                operators.grants@,
                *block,
                owner_addr@,
                sender_addr@,
            ) && e == if grant_exists(operators.grants@, owner_addr@, sender_addr@) {
                ContractError::NoAccessToApproveNftCauseGrantExpired
            } else {
                ContractError::NoAccessToApproveNftCauseGrantNotFound
            },
        },
{
    if *owner_addr == *sender_addr {
        return Ok(());
    }
    match operators.grant_of(owner_addr, sender_addr) {
        Some(expiry) => {
            if expiry.is_expired(block) {
                Err(ContractError::NoAccessToApproveNftCauseGrantExpired)
            } else {
                Ok(())
            }
        },
        None => Err(ContractError::NoAccessToApproveNftCauseGrantNotFound),
    }
}

/// The error a refused send comes back with: a missing item, an expired
/// grant and a missing grant are distinct conditions.
pub open spec fn spec_send_error(
    nfts: Seq<crate::registry::Nft>,
    grants: Seq<crate::operators::OperatorGrant>,
    sender: Seq<char>,
    id: u128,
    e: ContractError,
) -> bool {
    match spec_find_nft(nfts, id) {
        None => e == (ContractError::NftTokenIdNotFound { nft_token_id: id }),
        Some(n) => e == if grant_exists(grants, n.owner@, sender) {
            ContractError::NoAccessToSendNftCauseGrantExpired
        } else {
            ContractError::NoAccessToSendNftCauseGrantNotFound
        },
    }
}

/// Check that `sender` may send the item, reporting a missing item, an
/// expired grant and a missing grant as distinct conditions.
pub fn assert_can_send(
    registry: &NftRegistry,
    operators: &NftOperators,
    block: &BlockInfo,
    sender_addr: &String,
    token_id: u128,
) -> (r: Result<(), ContractError>)
    requires
        operators.wf(),
    ensures
        match r {
            Ok(()) => spec_can_send(
                registry.nfts@,
                operators.grants@,
                *block,
                sender_addr@,
                token_id,
            ),
            Err(e) => !spec_can_send(
                registry.nfts@,
                operators.grants@,
                *block,
                sender_addr@,
                token_id,
            ) && spec_send_error(
                registry.nfts@,
                operators.grants@,
                sender_addr@,
                token_id,
                e,
            ),
        },
{
    let j = match registry.find_index(token_id) {
        Some(j) => j,
        None => {
            return Err(ContractError::NftTokenIdNotFound { nft_token_id: token_id });
        },
    };
    let nft = &registry.nfts[j];
    proof {
        assert(spec_find_nft(registry.nfts@, token_id) == Some(*nft));
    }
    if nft.owner == *sender_addr {
        return Ok(());
    }
    let m = nft.approvals.len();
    for k in 0..m
        invariant
            j < registry.nfts@.len(),
            *nft == registry.nfts@[j as int],
            m == nft.approvals@.len(),
            spec_find_nft(registry.nfts@, token_id) == Some(*nft),
            forall|i: int| 0 <= i < k ==> !((#[trigger] nft.approvals@[i]).spender@
                == sender_addr@ && !nft.approvals@[i].expires.spec_is_expired(*block)),
    {
        if nft.approvals[k].spender == *sender_addr
            && !nft.approvals[k].expires.is_expired(block) {
            proof {
                assert(nft.approvals@[k as int].spender@ == sender_addr@
                    && !nft.approvals@[k as int].expires.spec_is_expired(*block));
                assert(spec_has_valid_approval(nft.approvals@, sender_addr@, *block));
            }
            return Ok(());
        }
    }
    match operators.grant_of(&nft.owner, sender_addr) {
        Some(expiry) => {
            if expiry.is_expired(block) {
                Err(ContractError::NoAccessToSendNftCauseGrantExpired)
            } else {
                Ok(())
            }
        },
        None => Err(ContractError::NoAccessToSendNftCauseGrantNotFound),
    }
}

/// The approval list rebuilt without any approval for the spender.
fn approvals_without_spender(approvals: &Vec<NftApproval>, spender: &String) -> (r: Vec<
    NftApproval,
>)
    ensures
        r@ == spec_without_spender(approvals@, spender@),
{
    let n = approvals.len();
    let mut kept: Vec<NftApproval> = Vec::new();
    for j in 0..n
        invariant
            n == approvals@.len(),
            kept@ == spec_without_spender(approvals@.take(j as int), spender@),
    {
        proof {
            assert(approvals@.take(j + 1) =~= approvals@.take(j as int)
                + seq![approvals@[j as int]]);
            lemma_without_spender_concat(
                approvals@.take(j as int),
                seq![approvals@[j as int]],
                spender@,
            );
            lemma_without_spender_singleton(approvals@[j as int], spender@);
        }
        if !(approvals[j].spender == *spender) {
            let a = NftApproval {
                spender: approvals[j].spender.clone(),
                expires: approvals[j].expires,
            };
            proof {
                assert(a.spender@ == approvals@[j as int].spender@
                    && a.expires == approvals@[j as int].expires);
                assert(a == approvals@[j as int]);
            }
            kept.push(a);
            proof {
                assert(kept@ =~= spec_without_spender(approvals@.take(j + 1), spender@));
            }
        } else {
            proof {
                assert(kept@ =~= spec_without_spender(approvals@.take(j + 1), spender@));
            }
        }
    }
    proof {
        assert(approvals@.take(n as int) =~= approvals@);
    }
    kept
}

/// Removal distributes over concatenation.
proof fn lemma_without_spender_concat(a: Seq<NftApproval>, b: Seq<NftApproval>, spender: Seq<char>)
    ensures
        spec_without_spender(a + b, spender) == spec_without_spender(a, spender)
            + spec_without_spender(b, spender),
    decreases a.len(),
{
    if a.len() == 0 {
        assert(a + b =~= b);
        assert(spec_without_spender(a, spender) + spec_without_spender(b, spender)
            =~= spec_without_spender(b, spender));
    } else {
        assert((a + b).drop_first() =~= a.drop_first() + b);
        lemma_without_spender_concat(a.drop_first(), b, spender);
        if a[0].spender@ != spender {
            assert(seq![a[0]] + (spec_without_spender(a.drop_first(), spender)
                + spec_without_spender(b, spender))
                =~= (seq![a[0]] + spec_without_spender(a.drop_first(), spender))
                    + spec_without_spender(b, spender));
        }
    }
}

/// Removal on a one-element list, written out.
proof fn lemma_without_spender_singleton(a: NftApproval, spender: Seq<char>)
    ensures
        spec_without_spender(seq![a], spender) == if a.spender@ == spender {
            Seq::<NftApproval>::empty()
        } else {
            seq![a]
        },
{
    assert(seq![a].drop_first() =~= Seq::<NftApproval>::empty());
    assert(spec_without_spender(Seq::<NftApproval>::empty(), spender)
        =~= Seq::<NftApproval>::empty());
    if a.spender@ != spender {
        assert(spec_without_spender(seq![a], spender) =~= seq![a]
            + Seq::<NftApproval>::empty());
        assert(seq![a] + Seq::<NftApproval>::empty() =~= seq![a]);
    }
}

/// How an approve changes the item: every earlier approval of the spender
/// is gone and the new approval stands at the end of the list; everything
/// else is as before.
pub open spec fn approve_applied(
    pre: NftRegistry,
    post: NftRegistry,
    id: u128,
    spender: Seq<char>,
    exp: Expiration,
) -> bool {
    &&& nft_unchanged_except(pre, post, id)
    &&& spec_find_nft(pre.nfts@, id) matches Some(n) && (spec_find_nft(post.nfts@, id)
        matches Some(n2) && {
        let w = spec_without_spender(n.approvals@, spender);
        &&& n2.id == id
        &&& n2.owner == n.owner
        &&& n2.token_uri == n.token_uri
        &&& n2.approvals@.len() == w.len() + 1
        &&& n2.approvals@.take(w.len() as int) == w
        &&& n2.approvals@.last().spender@ == spender
        &&& n2.approvals@.last().expires == exp
    })
}

/// How a revoke changes the item: every approval of the spender is gone;
/// everything else is as before.
pub open spec fn revoke_applied(
    pre: NftRegistry,
    post: NftRegistry,
    id: u128,
    spender: Seq<char>,
) -> bool {
    &&& nft_unchanged_except(pre, post, id)
    &&& spec_find_nft(pre.nfts@, id) matches Some(n) && (spec_find_nft(post.nfts@, id)
        matches Some(n2) && {
        &&& n2.id == id
        &&& n2.owner == n.owner
        &&& n2.token_uri == n.token_uri
        &&& n2.approvals@ == spec_without_spender(n.approvals@, spender)
    })
}

/// Grant `spender` an approval on the item, replacing any earlier approval
/// for the same spender. The caller must be the item's owner or an
/// unexpired operator; an approval that would already be expired is
/// rejected as invalid.
pub fn approve_nft(
    registry: &mut NftRegistry,
    operators: &NftOperators,
    block: &BlockInfo,
    sender_addr: &String,
    spender_addr: &String,
    token_id: u128,
    expires: Option<Expiration>,
) -> (r: Result<(), ContractError>)
    requires
        old(registry).wf(),
        operators.wf(),
    ensures
        final(registry).wf(),
        ({
            let resolved = match expires {
                Some(e) => e,
                None => Expiration::Never,
            };
            match r {
                Ok(()) => (spec_find_nft(old(registry).nfts@, token_id) matches Some(n)
                    && spec_can_update_approvals(
                        operators.grants@,
                        *block,
                        n.owner@,
                        sender_addr@,
                    )) && !resolved.spec_is_expired(*block) && approve_applied(
                    *old(registry),
                    *final(registry),
                    token_id,
                    spender_addr@,
                    resolved,
                ),
                Err(e) => *final(registry) == *old(registry) && (match spec_find_nft(
                    old(registry).nfts@,
                    token_id,
                ) {
                    None => e == (ContractError::NftTokenIdNotFound {
                        nft_token_id: token_id,
                    }),
                    Some(n) => if !spec_can_update_approvals(
                        operators.grants@,
                        *block,
                        n.owner@,
                        sender_addr@,
                    ) {
                        e == if grant_exists(operators.grants@, n.owner@, sender_addr@) {
                            ContractError::NoAccessToApproveNftCauseGrantExpired
                        } else {
                            ContractError::NoAccessToApproveNftCauseGrantNotFound
                        }
                    } else {
                        resolved.spec_is_expired(*block) && e == ContractError::Expired
                    },
                }),
            }
        }),
{
    let ghost pre = *registry;
    let j = match registry.find_index(token_id) {
        Some(j) => j,
        None => {
            return Err(ContractError::NftTokenIdNotFound { nft_token_id: token_id });
        },
    };
    match assert_can_update_approvals(operators, block, &registry.nfts[j].owner, sender_addr) {
        Ok(()) => (),
        Err(e) => {
            return Err(e);
        },
    }
    let resolved = match expires {
        Some(e) => e,
        None => Expiration::never(),
    };
    if resolved.is_expired(block) {
        return Err(ContractError::Expired);
    }
    let mut new_list = approvals_without_spender(&registry.nfts[j].approvals, spender_addr);
    let ghost w = new_list@;
    new_list.push(NftApproval { spender: spender_addr.clone(), expires: resolved });
    proof {
        let n = pre.nfts@[j as int];
        assert(distinct_spenders(n.approvals@));
        lemma_without_spender_membership(n.approvals@, spender_addr@);
        lemma_without_spender_distinct(n.approvals@, spender_addr@);
        assert forall|i: int, k: int| 0 <= i < k < new_list@.len() implies
            (#[trigger] new_list@[i]).spender@ != (#[trigger] new_list@[k]).spender@ by {
            if k == w.len() {
                assert(new_list@[i] == w[i]);
                assert(w[i].spender@ != spender_addr@);
            } else {
                assert(new_list@[i] == w[i] && new_list@[k] == w[k]);
            }
        }
    }
    let ghost new_view = new_list@;
    match registry.replace_nft_approvals(token_id, new_list) {
        Ok(()) => {
            proof {
                assert(new_view.take(w.len() as int) =~= w);
            }
            Ok(())
        },
        Err(_) => {
            proof {
                assert(false);
            }
            Err(ContractError::NftTokenIdNotFound { nft_token_id: token_id })
        },
    }
}

/// Remove the spender's approval on the item, if any. Removing an absent
/// approval succeeds and leaves the registry exactly as it was. The caller
/// must be the item's owner or an unexpired operator.
pub fn revoke_nft(
    registry: &mut NftRegistry,
    operators: &NftOperators,
    block: &BlockInfo,
    sender_addr: &String,
    spender_addr: &String,
    token_id: u128,
) -> (r: Result<(), ContractError>)
    requires
        old(registry).wf(),
        operators.wf(),
    ensures
        final(registry).wf(),
        match r {
            Ok(()) => (spec_find_nft(old(registry).nfts@, token_id) matches Some(n)
                && spec_can_update_approvals(
                    operators.grants@,
                    *block,
                    n.owner@,
                    sender_addr@,
                ) && revoke_applied(*old(registry), *final(registry), token_id, spender_addr@)
                && (spec_find_approval(n.approvals@, spender_addr@) is None
                    ==> *final(registry) == *old(registry))),
            Err(e) => *final(registry) == *old(registry) && (match spec_find_nft(
                old(registry).nfts@,
                token_id,
            ) {
                None => e == (ContractError::NftTokenIdNotFound { nft_token_id: token_id }),
                Some(n) => !spec_can_update_approvals(
                    operators.grants@,
                    *block,
                    n.owner@,
                    sender_addr@,
                ) && e == if grant_exists(operators.grants@, n.owner@, sender_addr@) {
                    ContractError::NoAccessToApproveNftCauseGrantExpired
                } else {
                    ContractError::NoAccessToApproveNftCauseGrantNotFound
                },
            }),
        },
{
    let ghost pre = *registry;
    let j = match registry.find_index(token_id) {
        Some(j) => j,
        None => {
            return Err(ContractError::NftTokenIdNotFound { nft_token_id: token_id });
        },
    };
    match assert_can_update_approvals(operators, block, &registry.nfts[j].owner, sender_addr) {
        Ok(()) => (),
        Err(e) => {
            return Err(e);
        },
    }
    if !has_approval_for(&registry.nfts[j].approvals, spender_addr) {
        // Nothing to remove: succeed without touching the registry.
        proof {
            let n = pre.nfts@[j as int];
            lemma_without_spender_absent(n.approvals@, spender_addr@);
            assert(revoke_applied(pre, *registry, token_id, spender_addr@));
        }
        return Ok(());
    }
    let new_list = approvals_without_spender(&registry.nfts[j].approvals, spender_addr);
    proof {
        let n = pre.nfts@[j as int];
        assert(distinct_spenders(n.approvals@));
        lemma_without_spender_distinct(n.approvals@, spender_addr@);
    }
    match registry.replace_nft_approvals(token_id, new_list) {
        Ok(()) => Ok(()),
        Err(_) => {
            proof {
                assert(false);
            }
            Err(ContractError::NftTokenIdNotFound { nft_token_id: token_id })
        },
    }
}

} // verus!
