//! Read-only views over the registry, the grant table and the counters,
//! shaped like the responses the contract serves.
//!
//! Listing queries return ascending ids from the owner index, paginate
//! with an exclusive lower bound, and cap their page size.

use vstd::prelude::*;
use crate::error::ContractError;
use crate::expiration::{BlockInfo, Expiration};
use crate::config::DenomMetadata;
use crate::merkle::lex_lt;
use crate::operators::{grant_exists, spec_grant_expiry, NftOperators, OperatorGrant};
use crate::registry::{
    nft_exists, owned_ids, spec_find_nft, Nft, NftApproval, NftRegistry,
};
use crate::approvals::spec_find_approval;

verus! {

/// Page size used when a query names none.
pub const DEFAULT_LIMIT: u32 = 10;

/// Largest page size a query may ask for.
pub const MAX_LIMIT: u32 = 100;

/// Supply counters on both views of the asset.
#[derive(Debug)]
pub struct SupplyResponse {
    pub current_nft_supply: u128,
    pub max_nft_supply: u128,
    pub current_ft_supply: u128,
    pub max_ft_supply: u128,
}

/// One account's balance on both views of the asset.
#[derive(Debug)]
pub struct BalanceResponse {
    pub nft_balance: u128,
    pub ft_balance: u128,
}

/// The owner of an item and its (optionally filtered) approvals.
#[derive(Debug)]
pub struct OwnerOfResponse {
    pub owner: String,
    pub approvals: Vec<NftApproval>,
}

/// One approval on an item.
#[derive(Debug)]
pub struct ApprovalResponse {
    pub approval: NftApproval,
}

/// All approvals on an item, optionally filtered.
#[derive(Debug)]
pub struct ApprovalsResponse {
    pub approvals: Vec<NftApproval>,
}

/// One operator grant, spelled as an approval on all of an owner's items.
#[derive(Debug)]
pub struct OperatorResponse {
    pub approval: NftApproval,
}

/// A page of an owner's operator grants.
#[derive(Debug)]
pub struct OperatorsResponse {
    pub operators: Vec<NftApproval>,
}

/// Number of currently existing items.
#[derive(Debug)]
pub struct NumTokensResponse {
    pub count: u128,
}

/// Display name and symbol of the collection.
#[derive(Debug)]
pub struct ContractInfoResponse {
    pub name: String,
    pub symbol: String,
}

/// The metadata uri of one item.
#[derive(Debug)]
pub struct NftInfoResponse {
    pub token_uri: Option<String>,
}

/// Ownership and metadata of one item in a single answer.
#[derive(Debug)]
pub struct AllNftInfoResponse {
    pub access: OwnerOfResponse,
    pub info: NftInfoResponse,
}

/// A page of item ids.
#[derive(Debug)]
pub struct TokensResponse {
    pub tokens: Vec<u128>,
}

/// A page of the recycled-id pool.
#[derive(Debug)]
pub struct RecycledNftTokenIdsResponse {
    pub recycled_nft_token_ids: Vec<u128>,
}

/// The approvals kept by a listing: all of them when expired entries are
/// wanted, otherwise only the unexpired ones.
pub open spec fn spec_filtered_approvals(
    s: Seq<NftApproval>,
    block: BlockInfo,
    include_expired: bool,
) -> Seq<NftApproval>
    decreases s.len(),
{
    if s.len() == 0 {
        Seq::empty()
    } else if include_expired || !s[0].expires.spec_is_expired(block) {
        seq![s[0]] + spec_filtered_approvals(s.drop_first(), block, include_expired)
    } else {
        spec_filtered_approvals(s.drop_first(), block, include_expired)
    }
}

/// The approval filter distributes over concatenation.
proof fn lemma_filtered_approvals_concat(
    a: Seq<NftApproval>,
    b: Seq<NftApproval>,
    block: BlockInfo,
    include_expired: bool,
)
    ensures
        spec_filtered_approvals(a + b, block, include_expired) == spec_filtered_approvals(
            a,
            block,
            include_expired,
        ) + spec_filtered_approvals(b, block, include_expired),
    decreases a.len(),
{
    let fa = spec_filtered_approvals(a, block, include_expired);
    let fb = spec_filtered_approvals(b, block, include_expired);
    if a.len() == 0 {
        assert(a + b =~= b);
        assert(fa + fb =~= fb);
    } else {
        assert((a + b).drop_first() =~= a.drop_first() + b);
        lemma_filtered_approvals_concat(a.drop_first(), b, block, include_expired);
        if include_expired || !a[0].expires.spec_is_expired(block) {
            assert(seq![a[0]] + (spec_filtered_approvals(a.drop_first(), block, include_expired)
                + fb) =~= (seq![a[0]] + spec_filtered_approvals(
                a.drop_first(),
                block,
                include_expired,
            )) + fb);
        }
    }
}

/// The approval filter on a one-element list, written out.
proof fn lemma_filtered_approvals_singleton(
    a: NftApproval,
    block: BlockInfo,
    include_expired: bool,
)
    ensures
        spec_filtered_approvals(seq![a], block, include_expired) == if include_expired
            || !a.expires.spec_is_expired(block) {
            seq![a]
        } else {
            Seq::<NftApproval>::empty()
        },
{
    assert(seq![a].drop_first() =~= Seq::<NftApproval>::empty());
    assert(spec_filtered_approvals(Seq::<NftApproval>::empty(), block, include_expired)
        =~= Seq::<NftApproval>::empty());
    if include_expired || !a.expires.spec_is_expired(block) {
        assert(spec_filtered_approvals(seq![a], block, include_expired) =~= seq![a]
            + Seq::<NftApproval>::empty());
        assert(seq![a] + Seq::<NftApproval>::empty() =~= seq![a]);
    } else {
        assert(spec_filtered_approvals(seq![a], block, include_expired)
            =~= Seq::<NftApproval>::empty());
    }
}

/// An item's approvals with expired entries dropped unless asked for.
pub fn humanize_approvals(block: &BlockInfo, nft: &Nft, include_expired: bool) -> (r: Vec<
    NftApproval,
>)
    ensures
        r@ == spec_filtered_approvals(nft.approvals@, *block, include_expired),
{
    let n = nft.approvals.len();
    let mut kept: Vec<NftApproval> = Vec::new();
    for j in 0..n
        invariant
            n == nft.approvals@.len(),
            kept@ == spec_filtered_approvals(nft.approvals@.take(j as int), *block, include_expired),
    {
        proof {
            assert(nft.approvals@.take(j + 1) =~= nft.approvals@.take(j as int)
                + seq![nft.approvals@[j as int]]);
            lemma_filtered_approvals_concat(
                nft.approvals@.take(j as int),
                seq![nft.approvals@[j as int]],
                *block,
                include_expired,
            );
            lemma_filtered_approvals_singleton(nft.approvals@[j as int], *block, include_expired);
        }
        if include_expired || !nft.approvals[j].expires.is_expired(block) {
            let a = NftApproval {
                spender: nft.approvals[j].spender.clone(),
                expires: nft.approvals[j].expires,
            };
            proof {
                assert(a.spender@ == nft.approvals@[j as int].spender@
                    && a.expires == nft.approvals@[j as int].expires);
                assert(a == nft.approvals@[j as int]);
            }
            kept.push(a);
            proof {
                assert(kept@ =~= spec_filtered_approvals(
                    nft.approvals@.take(j + 1),
                    *block,
                    include_expired,
                ));
            }
        } else {
            proof {
                assert(kept@ =~= spec_filtered_approvals(
                    nft.approvals@.take(j + 1),
                    *block,
                    include_expired,
                ));
            }
        }
    }
    proof {
        assert(nft.approvals@.take(n as int) =~= nft.approvals@);
    }
    kept
}

/// The resolved page size: the given limit, or the default, capped.
pub fn resolve_limit(limit: Option<u32>) -> (r: usize)
    ensures
        r == spec_resolve_limit(limit),
{
    let l = match limit {
        Some(l) => l,
        None => DEFAULT_LIMIT,
    };
    let l = if l < MAX_LIMIT {
        l
    } else {
        MAX_LIMIT
    };
    l as usize
}

/// The resolved page size: the given limit, or the default, capped.
pub open spec fn spec_resolve_limit(limit: Option<u32>) -> int {
    let l = match limit {
        Some(l) => l as int,
        None => DEFAULT_LIMIT as int,
    };
    if l < MAX_LIMIT as int {
        l
    } else {
        MAX_LIMIT as int
    }
}

/// Supply counters, with the fungible side mirrored through the scale.
pub fn query_supply(
    registry: &NftRegistry,
    current_ft_supply: u128,
    one_denom_in_base_denom: u128,
) -> (r: SupplyResponse)
    requires
        registry.max_nft_supply * one_denom_in_base_denom <= u128::MAX,
    ensures
        r.current_nft_supply == registry.current_nft_supply,
        r.max_nft_supply == registry.max_nft_supply,
        r.current_ft_supply == current_ft_supply,
        r.max_ft_supply == registry.max_nft_supply * one_denom_in_base_denom,
{
    SupplyResponse {
        current_nft_supply: registry.current_nft_supply,
        max_nft_supply: registry.max_nft_supply,
        current_ft_supply,
        max_ft_supply: registry.max_nft_supply * one_denom_in_base_denom,
    }
}

/// An account's balance on both views.
pub fn query_balance(ft_balance: u128, one_denom_in_base_denom: u128) -> (r: BalanceResponse)
    requires
        one_denom_in_base_denom > 0,
    ensures
        r.ft_balance == ft_balance,
        r.nft_balance == ft_balance as int / one_denom_in_base_denom as int,
{
    BalanceResponse { nft_balance: ft_balance / one_denom_in_base_denom, ft_balance }
}

/// The owner of an item, with its filtered approvals.
pub fn query_nft_owner(
    registry: &NftRegistry,
    block: &BlockInfo,
    token_id: u128,
    include_expired: Option<bool>,
) -> (r: Result<OwnerOfResponse, ContractError>)
    ensures
        ({
            let inc = include_expired is Some && include_expired->0;
            match r {
                Ok(resp) => spec_find_nft(registry.nfts@, token_id) matches Some(n)
                    && resp.owner@ == n.owner@
                    && resp.approvals@ == spec_filtered_approvals(n.approvals@, *block, inc),
                Err(e) => !nft_exists(registry.nfts@, token_id)
                    && e == (ContractError::NftTokenIdNotFound { nft_token_id: token_id }),
            }
        }),
{
    let j = match registry.find_index(token_id) {
        Some(j) => j,
        None => {
            return Err(ContractError::NftTokenIdNotFound { nft_token_id: token_id });
        },
    };
    let inc = match include_expired {
        Some(b) => b,
        None => false,
    };
    let approvals = humanize_approvals(block, &registry.nfts[j], inc);
    Ok(OwnerOfResponse { owner: registry.nfts[j].owner.clone(), approvals })
}

/// The approval a spender holds on an item. The owner holds an implicit
/// approval that never expires; anyone else must hold a stored approval,
/// unexpired unless expired entries are asked for.
pub fn query_nft_approval(
    registry: &NftRegistry,
    block: &BlockInfo,
    token_id: u128,
    spender: &String,
    include_expired: Option<bool>,
) -> (r: Result<ApprovalResponse, ContractError>)
    requires
        registry.wf(),
    ensures
        ({
            let inc = include_expired is Some && include_expired->0;
            match r {
                Ok(resp) => spec_find_nft(registry.nfts@, token_id) matches Some(n) && {
                    if n.owner@ == spender@ {
                        resp.approval.spender@ == spender@ && resp.approval.expires
                            == Expiration::Never
                    } else {
                        spec_find_approval(n.approvals@, spender@) matches Some(a)
                            && (inc || !a.expires.spec_is_expired(*block))
                            && resp.approval.spender@ == a.spender@
                            && resp.approval.expires == a.expires
                    }
                },
                Err(e) => match spec_find_nft(registry.nfts@, token_id) {
                    None => e == (ContractError::NftTokenIdNotFound {
                        nft_token_id: token_id,
                    }),
                    Some(n) => n.owner@ != spender@ && (match spec_find_approval(
                        n.approvals@,
                        spender@,
                    ) {
                        None => true,
                        Some(a) => !inc && a.expires.spec_is_expired(*block),
                    }) && (e matches ContractError::ApprovalNotFound { spender: sp }
                        && sp@ == spender@),
                },
            }
        }),
{
    let j = match registry.find_index(token_id) {
        Some(j) => j,
        None => {
            return Err(ContractError::NftTokenIdNotFound { nft_token_id: token_id });
        },
    };
    let nft = &registry.nfts[j];
    if nft.owner == *spender {
        return Ok(ApprovalResponse {
            approval: NftApproval { spender: spender.clone(), expires: Expiration::never() },
        });
    }
    let inc = match include_expired {
        Some(b) => b,
        None => false,
    };
    let m = nft.approvals.len();
    for k in 0..m
        invariant
            j < registry.nfts@.len(),
            *nft == registry.nfts@[j as int],
            m == nft.approvals@.len(),
            spec_find_nft(registry.nfts@, token_id) == Some(*nft),
            nft.owner@ != spender@,
            inc == (include_expired is Some && include_expired->0),
            forall|i: int| 0 <= i < k
                ==> (#[trigger] nft.approvals@[i]).spender@ != spender@,
            spec_find_approval(nft.approvals@.take(k as int), spender@) is None,
    {
        proof {
            assert(nft.approvals@.take(k + 1) =~= nft.approvals@.take(k as int)
                + seq![nft.approvals@[k as int]]);
            lemma_find_approval_take_step(nft.approvals@, k as int, spender@);
        }
        if nft.approvals[k].spender == *spender {
            let a = &nft.approvals[k];
            if inc || !a.expires.is_expired(block) {
                proof {
                    assert(spec_find_approval(nft.approvals@, spender@)
                        == Some(nft.approvals@[k as int]));
                }
                return Ok(ApprovalResponse {
                    approval: NftApproval { spender: a.spender.clone(), expires: a.expires },
                });
            } else {
                proof {
                    assert(spec_find_approval(nft.approvals@, spender@)
                        == Some(nft.approvals@[k as int]));
                }
                return Err(ContractError::ApprovalNotFound { spender: spender.clone() });
            }
        }
    }
    proof {
        assert(nft.approvals@.take(m as int) =~= nft.approvals@);
    }
    Err(ContractError::ApprovalNotFound { spender: spender.clone() })
}

/// A scan for a spender over a prefix, advanced one element: the element
/// decides if the prefix held nothing.
proof fn lemma_find_approval_take_step(s: Seq<NftApproval>, k: int, spender: Seq<char>)
    requires
        0 <= k < s.len(),
        spec_find_approval(s.take(k), spender) is None,
    ensures
        s[k].spender@ == spender ==> spec_find_approval(s, spender) == Some(s[k]),
        s[k].spender@ != spender ==> spec_find_approval(s.take(k + 1), spender) is None,
    decreases k,
{
    if k == 0 {
        assert(s.take(1).drop_first() =~= Seq::<NftApproval>::empty());
        if s[0].spender@ == spender {
            assert(s.take(s.len() as int) =~= s);
            lemma_find_prefix_extends(s, 0, spender);
        }
    } else {
        assert(s.take(k).len() > 0);
        assert(s.take(k)[0] == s[0]);
        if s[0].spender@ == spender {
            assert(spec_find_approval(s.take(k), spender) is Some);
        }
        assert(s.take(k).drop_first() =~= s.drop_first().take(k - 1));
        assert(s.take(k + 1).drop_first() =~= s.drop_first().take(k));
        assert(s.drop_first()[k - 1] == s[k]);
        lemma_find_approval_take_step(s.drop_first(), k - 1, spender);
    }
}

/// If every element before position `k` misses the spender and `s[k]` hits
/// it, the whole scan returns `s[k]`.
proof fn lemma_find_prefix_extends(s: Seq<NftApproval>, k: int, spender: Seq<char>)
    requires
        0 <= k < s.len(),
        forall|i: int| 0 <= i < k ==> (#[trigger] s[i]).spender@ != spender,
        s[k].spender@ == spender,
    ensures
        spec_find_approval(s, spender) == Some(s[k]),
    decreases k,
{
    if k == 0 {
    } else {
        assert(forall|i: int| 0 <= i < s.drop_first().len()
            ==> s.drop_first()[i] == s[i + 1]);
        lemma_find_prefix_extends(s.drop_first(), k - 1, spender);
    }
}

/// All approvals on an item, filtered unless expired entries are wanted.
pub fn query_nft_approvals(
    registry: &NftRegistry,
    block: &BlockInfo,
    token_id: u128,
    include_expired: Option<bool>,
) -> (r: Result<ApprovalsResponse, ContractError>)
    ensures
        ({
            let inc = include_expired is Some && include_expired->0;
            match r {
                Ok(resp) => spec_find_nft(registry.nfts@, token_id) matches Some(n)
                    && resp.approvals@ == spec_filtered_approvals(n.approvals@, *block, inc),
                Err(e) => !nft_exists(registry.nfts@, token_id)
                    && e == (ContractError::NftTokenIdNotFound { nft_token_id: token_id }),
            }
        }),
{
    let j = match registry.find_index(token_id) {
        Some(j) => j,
        None => {
            return Err(ContractError::NftTokenIdNotFound { nft_token_id: token_id });
        },
    };
    let inc = match include_expired {
        Some(b) => b,
        None => false,
    };
    let approvals = humanize_approvals(block, &registry.nfts[j], inc);
    Ok(ApprovalsResponse { approvals })
}

/// The grant an operator holds from an owner, hidden once expired unless
/// expired entries are asked for.
pub fn query_nft_operator(
    operators: &NftOperators,
    block: &BlockInfo,
    owner_addr: &String,
    operator_addr: &String,
    include_expired: Option<bool>,
) -> (r: Result<OperatorResponse, ContractError>)
    requires
        operators.wf(),
    ensures
        ({
            let inc = include_expired is Some && include_expired->0;
            let gex = grant_exists(operators.grants@, owner_addr@, operator_addr@);
            let exp = spec_grant_expiry(operators.grants@, owner_addr@, operator_addr@);
            match r {
                Ok(resp) => gex && (inc || !exp.spec_is_expired(*block))
                    && resp.approval.spender@ == operator_addr@
                    && resp.approval.expires == exp,
                Err(e) => (!gex || (!inc && exp.spec_is_expired(*block)))
                    && (e matches ContractError::OperatorNotFound { operator: op }
                        && op@ == operator_addr@),
            }
        }),
{
    let inc = match include_expired {
        Some(b) => b,
        None => false,
    };
    match operators.grant_of(owner_addr, operator_addr) {
        Some(expires) => {
            if !inc && expires.is_expired(block) {
                Err(ContractError::OperatorNotFound { operator: operator_addr.clone() })
            } else {
                Ok(OperatorResponse {
                    approval: NftApproval { spender: operator_addr.clone(), expires },
                })
            }
        },
        None => Err(ContractError::OperatorNotFound { operator: operator_addr.clone() }),
    }
}

/// Number of currently existing items.
pub fn query_nft_num_tokens(registry: &NftRegistry) -> (r: NumTokensResponse)
    ensures
        r.count == registry.current_nft_supply,
{
    NumTokensResponse { count: registry.current_nft_supply }
}

/// Display name and symbol of the collection.
pub fn query_nft_contract_info(metadata: &DenomMetadata) -> (r: ContractInfoResponse)
    ensures
        r.name@ == metadata.name@,
        r.symbol@ == metadata.symbol@,
{
    ContractInfoResponse { name: metadata.name.clone(), symbol: metadata.symbol.clone() }
}

/// The metadata uri of one item.
pub fn query_nft_info(registry: &NftRegistry, token_id: u128) -> (r: Result<
    NftInfoResponse,
    ContractError,
>)
    ensures
        match r {
            Ok(resp) => spec_find_nft(registry.nfts@, token_id) matches Some(n)
                && resp.token_uri == n.token_uri,
            Err(e) => !nft_exists(registry.nfts@, token_id)
                && e == (ContractError::NftTokenIdNotFound { nft_token_id: token_id }),
        },
{
    let j = match registry.find_index(token_id) {
        Some(j) => j,
        None => {
            return Err(ContractError::NftTokenIdNotFound { nft_token_id: token_id });
        },
    };
    let token_uri = match &registry.nfts[j].token_uri {
        Some(u) => Some(u.clone()),
        None => None,
    };
    Ok(NftInfoResponse { token_uri })
}

/// Ownership and metadata of one item in a single answer.
pub fn query_all_nft_infos(
    registry: &NftRegistry,
    block: &BlockInfo,
    token_id: u128,
    include_expired: Option<bool>,
) -> (r: Result<AllNftInfoResponse, ContractError>)
    ensures
        ({
            let inc = include_expired is Some && include_expired->0;
            match r {
                Ok(resp) => spec_find_nft(registry.nfts@, token_id) matches Some(n)
                    && resp.access.owner@ == n.owner@
                    && resp.access.approvals@ == spec_filtered_approvals(
                        n.approvals@,
                        *block,
                        inc,
                    ) && resp.info.token_uri == n.token_uri,
                Err(e) => !nft_exists(registry.nfts@, token_id)
                    && e == (ContractError::NftTokenIdNotFound { nft_token_id: token_id }),
            }
        }),
{
    let access = match query_nft_owner(registry, block, token_id, include_expired) {
        Ok(a) => a,
        Err(e) => {
            return Err(e);
        },
    };
    let info = match query_nft_info(registry, token_id) {
        Ok(i) => i,
        Err(e) => {
            return Err(e);
        },
    };
    Ok(AllNftInfoResponse { access, info })
}

/// The ids above an exclusive lower bound, in their given order.
pub open spec fn spec_ids_after(ids: Seq<u128>, start_after: Option<u128>) -> Seq<u128>
    decreases ids.len(),
{
    if ids.len() == 0 {
        Seq::empty()
    } else if (match start_after {
        Some(s) => ids[0] > s,
        None => true,
    }) {
        seq![ids[0]] + spec_ids_after(ids.drop_first(), start_after)
    } else {
        spec_ids_after(ids.drop_first(), start_after)
    }
}

/// The bound filter distributes over concatenation.
proof fn lemma_ids_after_concat(a: Seq<u128>, b: Seq<u128>, start_after: Option<u128>)
    ensures
        spec_ids_after(a + b, start_after) == spec_ids_after(a, start_after)
            + spec_ids_after(b, start_after),
    decreases a.len(),
{
    let fa = spec_ids_after(a, start_after);
    let fb = spec_ids_after(b, start_after);
    if a.len() == 0 {
        assert(a + b =~= b);
        assert(fa + fb =~= fb);
    } else {
        assert((a + b).drop_first() =~= a.drop_first() + b);
        lemma_ids_after_concat(a.drop_first(), b, start_after);
        if (match start_after {
            Some(s) => a[0] > s,
            None => true,
        }) {
            assert(seq![a[0]] + (spec_ids_after(a.drop_first(), start_after) + fb)
                =~= (seq![a[0]] + spec_ids_after(a.drop_first(), start_after)) + fb);
        }
    }
}

/// The bound filter on a one-element list, written out.
proof fn lemma_ids_after_singleton(x: u128, start_after: Option<u128>)
    ensures
        spec_ids_after(seq![x], start_after) == if (match start_after {
            Some(s) => x > s,
            None => true,
        }) {
            seq![x]
        } else {
            Seq::<u128>::empty()
        },
{
    assert(seq![x].drop_first() =~= Seq::<u128>::empty());
    assert(spec_ids_after(Seq::<u128>::empty(), start_after) =~= Seq::<u128>::empty());
    if (match start_after {
        Some(s) => x > s,
        None => true,
    }) {
        assert(spec_ids_after(seq![x], start_after) =~= seq![x] + Seq::<u128>::empty());
        assert(seq![x] + Seq::<u128>::empty() =~= seq![x]);
    } else {
        assert(spec_ids_after(seq![x], start_after) =~= Seq::<u128>::empty());
    }
}

/// A page of the ids `owner` owns, ascending, beginning after the bound.
pub fn query_nfts(
    registry: &NftRegistry,
    owner_addr: &String,
    start_after: Option<u128>,
    limit: Option<u32>,
) -> (r: TokensResponse)
    ensures
        ({
            let all = spec_ids_after(owned_ids(registry.nfts@, owner_addr@), start_after);
            let lim = spec_resolve_limit(limit);
            r.tokens@ == if all.len() <= lim {
                all
            } else {
                all.subrange(0, lim)
            }
        }),
{
    let lim = resolve_limit(limit);
    let n = registry.nfts.len();
    let mut tokens: Vec<u128> = Vec::new();
    for j in 0..n
        invariant
            n == registry.nfts@.len(),
            tokens@ == spec_ids_after(
                owned_ids(registry.nfts@.take(j as int), owner_addr@),
                start_after,
            ),
    {
        proof {
            assert(registry.nfts@.take(j + 1) =~= registry.nfts@.take(j as int)
                + seq![registry.nfts@[j as int]]);
            crate::registry::lemma_owned_ids_concat(
                registry.nfts@.take(j as int),
                seq![registry.nfts@[j as int]],
                owner_addr@,
            );
            crate::registry::lemma_owned_ids_singleton(
                registry.nfts@[j as int],
                owner_addr@,
            );
            let extra = owned_ids(seq![registry.nfts@[j as int]], owner_addr@);
            lemma_ids_after_concat(
                owned_ids(registry.nfts@.take(j as int), owner_addr@),
                extra,
                start_after,
            );
            lemma_ids_after_singleton(registry.nfts@[j as int].id, start_after);
            assert(spec_ids_after(Seq::<u128>::empty(), start_after)
                =~= Seq::<u128>::empty());
        }
        if registry.nfts[j].owner == *owner_addr {
            let id = registry.nfts[j].id;
            let keep = match start_after {
                Some(s) => id > s,
                None => true,
            };
            if keep {
                tokens.push(id);
            }
        }
        proof {
            assert(tokens@ =~= spec_ids_after(
                owned_ids(registry.nfts@.take(j + 1), owner_addr@),
                start_after,
            ));
        }
    }
    proof {
        assert(registry.nfts@.take(n as int) =~= registry.nfts@);
    }
    tokens.truncate(lim);
    TokensResponse { tokens }
}

/// The ids of every existing item, in registry (ascending) order.
pub open spec fn all_ids(s: Seq<Nft>) -> Seq<u128> {
    s.map_values(|n: Nft| n.id)
}

/// A page of all existing ids, ascending, beginning after the bound.
pub fn query_all_nfts(
    registry: &NftRegistry,
    start_after: Option<u128>,
    limit: Option<u32>,
) -> (r: TokensResponse)
    ensures
        ({
            let all = spec_ids_after(all_ids(registry.nfts@), start_after);
            let lim = spec_resolve_limit(limit);
            r.tokens@ == if all.len() <= lim {
                all
            } else {
                all.subrange(0, lim)
            }
        }),
{
    let lim = resolve_limit(limit);
    let n = registry.nfts.len();
    let mut tokens: Vec<u128> = Vec::new();
    for j in 0..n
        invariant
            n == registry.nfts@.len(),
            tokens@ == spec_ids_after(all_ids(registry.nfts@.take(j as int)), start_after),
    {
        proof {
            assert(all_ids(registry.nfts@.take(j + 1)) =~= all_ids(
                registry.nfts@.take(j as int),
            ) + seq![registry.nfts@[j as int].id]);
            lemma_ids_after_concat(
                all_ids(registry.nfts@.take(j as int)),
                seq![registry.nfts@[j as int].id],
                start_after,
            );
            lemma_ids_after_singleton(registry.nfts@[j as int].id, start_after);
        }
        let id = registry.nfts[j].id;
        let keep = match start_after {
            Some(s) => id > s,
            None => true,
        };
        if keep {
            tokens.push(id);
        }
        proof {
            assert(tokens@ =~= spec_ids_after(
                all_ids(registry.nfts@.take(j + 1)),
                start_after,
            ));
        }
    }
    proof {
        assert(registry.nfts@.take(n as int) =~= registry.nfts@);
    }
    tokens.truncate(lim);
    TokensResponse { tokens }
}

/// A page of the recycled-id pool, oldest first, beginning at the index.
pub fn query_recycled_nft_token_ids(
    registry: &NftRegistry,
    start_after_idx: Option<u32>,
    limit: Option<u32>,
) -> (r: RecycledNftTokenIdsResponse)
    ensures
        ({
            let start = (match start_after_idx {
                Some(s) => s as int,
                None => 0,
            });
            let rest = if start <= registry.recycled_nft_ids@.len() {
                registry.recycled_nft_ids@.skip(start)
            } else {
                Seq::<u128>::empty()
            };
            let lim = spec_resolve_limit(limit);
            r.recycled_nft_token_ids@ == if rest.len() <= lim {
                rest
            } else {
                rest.subrange(0, lim)
            }
        }),
{
    let lim = resolve_limit(limit);
    let start_u32 = match start_after_idx {
        Some(s) => s,
        None => 0,
    };
    let start = start_u32 as usize;
    let n = registry.recycled_nft_ids.len();
    let mut ids: Vec<u128> = Vec::new();
    if start >= n {
        proof {
            if start <= registry.recycled_nft_ids@.len() {
                assert(registry.recycled_nft_ids@.skip(start as int)
                    =~= Seq::<u128>::empty());
            }
        }
        return RecycledNftTokenIdsResponse { recycled_nft_token_ids: ids };
    }
    for j in start..n
        invariant
            n == registry.recycled_nft_ids@.len(),
            start <= j <= n,
            ids@ == registry.recycled_nft_ids@.subrange(start as int, j as int),
    {
        ids.push(registry.recycled_nft_ids[j]);
        proof {
            assert(ids@ =~= registry.recycled_nft_ids@.subrange(start as int, j + 1));
        }
    }
    proof {
        assert(registry.recycled_nft_ids@.subrange(start as int, n as int)
            =~= registry.recycled_nft_ids@.skip(start as int));
    }
    ids.truncate(lim);
    RecycledNftTokenIdsResponse { recycled_nft_token_ids: ids }
}

/// A page of the grants an owner has given, in stored order, filtered by
/// expiry and an exclusive lower bound on the operator address.
pub open spec fn spec_operator_page(
    s: Seq<OperatorGrant>,
    owner: Seq<char>,
    block: BlockInfo,
    include_expired: bool,
    start_after: Option<Seq<char>>,
) -> Seq<OperatorGrant>
    decreases s.len(),
{
    if s.len() == 0 {
        Seq::empty()
    } else if s[0].owner@ == owner && (include_expired || !s[0].expires.spec_is_expired(
        block,
    )) && (match start_after {
        Some(st) => lex_lt(
            vstd::utf8::encode_utf8(st),
            vstd::utf8::encode_utf8(s[0].operator@),
        ),
        None => true,
    }) {
        seq![s[0]] + spec_operator_page(s.drop_first(), owner, block, include_expired, start_after)
    } else {
        spec_operator_page(s.drop_first(), owner, block, include_expired, start_after)
    }
}

/// The grant page filter distributes over concatenation.
proof fn lemma_operator_page_concat(
    a: Seq<OperatorGrant>,
    b: Seq<OperatorGrant>,
    owner: Seq<char>,
    block: BlockInfo,
    include_expired: bool,
    start_after: Option<Seq<char>>,
)
    ensures
        spec_operator_page(a + b, owner, block, include_expired, start_after)
            == spec_operator_page(a, owner, block, include_expired, start_after)
            + spec_operator_page(b, owner, block, include_expired, start_after),
    decreases a.len(),
{
    let fa = spec_operator_page(a, owner, block, include_expired, start_after);
    let fb = spec_operator_page(b, owner, block, include_expired, start_after);
    if a.len() == 0 {
        assert(a + b =~= b);
        assert(fa + fb =~= fb);
    } else {
        assert((a + b).drop_first() =~= a.drop_first() + b);
        lemma_operator_page_concat(a.drop_first(), b, owner, block, include_expired, start_after);
        let rest = spec_operator_page(a.drop_first(), owner, block, include_expired, start_after);
        if a[0].owner@ == owner && (include_expired || !a[0].expires.spec_is_expired(block))
            && (match start_after {
            Some(st) => lex_lt(
                vstd::utf8::encode_utf8(st),
                vstd::utf8::encode_utf8(a[0].operator@),
            ),
            None => true,
        }) {
            assert(seq![a[0]] + (rest + fb) =~= (seq![a[0]] + rest) + fb);
        }
    }
}

/// A page of the operators an owner has granted rights to.
pub fn query_all_nfts_operators(
    operators: &NftOperators,
    block: &BlockInfo,
    owner_addr: &String,
    include_expired: Option<bool>,
    start_after: Option<String>,
    limit: Option<u32>,
) -> (r: OperatorsResponse)
    ensures
        ({
            let inc = include_expired is Some && include_expired->0;
            let st = match start_after {
                Some(s) => Some(s@),
                None => None::<Seq<char>>,
            };
            let page = spec_operator_page(operators.grants@, owner_addr@, *block, inc, st);
            let lim = spec_resolve_limit(limit);
            let cut = if page.len() <= lim {
                page
            } else {
                page.subrange(0, lim)
            };
            r.operators@.len() == cut.len() && forall|i: int| 0 <= i < cut.len()
                ==> (#[trigger] r.operators@[i]).spender@ == cut[i].operator@
                    && r.operators@[i].expires == cut[i].expires
        }),
{
    let inc = match include_expired {
        Some(b) => b,
        None => false,
    };
    let lim = resolve_limit(limit);
    let ghost st = match start_after {
        Some(ref s) => Some(s@),
        None => None::<Seq<char>>,
    };
    let start_bytes = match &start_after {
        Some(s) => Some(s.as_str().as_bytes_vec()),
        None => None,
    };
    let n = operators.grants.len();
    let mut page: Vec<NftApproval> = Vec::new();
    for j in 0..n
        invariant
            n == operators.grants@.len(),
            st == (match start_after {
                Some(s) => Some(s@),
                None => None::<Seq<char>>,
            }),
            start_bytes matches Some(bs) ==> (start_after matches Some(s)
                && bs@ == vstd::utf8::encode_utf8(s@)),
            start_bytes is Some == start_after is Some,
            ({
                let cur = spec_operator_page(
                    operators.grants@.take(j as int),
                    owner_addr@,
                    *block,
                    inc,
                    st,
                );
                page@.len() == cur.len() && forall|i: int| 0 <= i < cur.len()
                    ==> (#[trigger] page@[i]).spender@ == cur[i].operator@
                        && page@[i].expires == cur[i].expires
            }),
    {
        let g = &operators.grants[j];
        proof {
            assert(operators.grants@.take(j + 1) =~= operators.grants@.take(j as int)
                + seq![operators.grants@[j as int]]);
            lemma_operator_page_concat(
                operators.grants@.take(j as int),
                seq![operators.grants@[j as int]],
                owner_addr@,
                *block,
                inc,
                st,
            );
            assert(seq![operators.grants@[j as int]].drop_first()
                =~= Seq::<OperatorGrant>::empty());
            assert(spec_operator_page(Seq::<OperatorGrant>::empty(), owner_addr@, *block, inc, st)
                =~= Seq::<OperatorGrant>::empty());
        }
        let mut keep = g.owner == *owner_addr && (inc || !g.expires.is_expired(block));
        if keep {
            match &start_bytes {
                Some(bs) => {
                    let op_bytes = g.operator.as_str().as_bytes_vec();
                    keep = crate::merkle::bytes_lt(bs, &op_bytes);
                },
                None => (),
            }
        }
        let ghost single = spec_operator_page(
            seq![operators.grants@[j as int]],
            owner_addr@,
            *block,
            inc,
            st,
        );
        proof {
            if keep {
                assert(single =~= seq![operators.grants@[j as int]]
                    + Seq::<OperatorGrant>::empty());
                assert(single =~= seq![operators.grants@[j as int]]);
            } else {
                assert(single =~= Seq::<OperatorGrant>::empty());
            }
        }
        if keep {
            page.push(NftApproval { spender: g.operator.clone(), expires: g.expires });
        }
    }
    proof {
        assert(operators.grants@.take(n as int) =~= operators.grants@);
    }
    page.truncate(lim);
    OperatorsResponse { operators: page }
}

} // verus!
