//! Global laws of the core, stated and proved over the same spec functions
//! the operation contracts use.

use vstd::prelude::*;
use crate::reconcile::{spec_nft_delta_on_decrease, spec_nft_delta_on_increase};
use crate::registry::{
    batch_burn_ok, batch_mint_ok, nft_exists, owned_ids, NftRegistry,
};

verus! {

/// Law: the set of existing item ids and the set of recycled ids are
/// disjoint in every well-formed registry.
pub proof fn lemma_existing_and_recycled_disjoint(r: NftRegistry)
    requires
        r.wf(),
    ensures
        forall|id: u128| nft_exists(r.nfts@, id)
            ==> !(#[trigger] r.recycled_nft_ids@.contains(id)),
        forall|id: u128| r.recycled_nft_ids@.contains(id)
            ==> !(#[trigger] nft_exists(r.nfts@, id)),
{
    assert forall|id: u128| r.recycled_nft_ids@.contains(id) implies
        !(#[trigger] nft_exists(r.nfts@, id)) by {
        let i = choose|i: int| 0 <= i < r.recycled_nft_ids@.len()
            && r.recycled_nft_ids@[i] == id;
        assert(!nft_exists(r.nfts@, r.recycled_nft_ids@[i]));
    }
    assert forall|id: u128| nft_exists(r.nfts@, id) implies
        !(#[trigger] r.recycled_nft_ids@.contains(id)) by {
        if r.recycled_nft_ids@.contains(id) {
            let i = choose|i: int| 0 <= i < r.recycled_nft_ids@.len()
                && r.recycled_nft_ids@[i] == id;
            assert(!nft_exists(r.nfts@, r.recycled_nft_ids@[i]));
        }
    }
}

/// Law: minting `n` items to an account that owns nothing, into an empty
/// recycled pool, and then burning all `n` of them leaves the pool holding
/// exactly those `n` ids, in burn (ascending mint) order.
pub proof fn lemma_mint_then_burn_recycles_in_order(
    r0: NftRegistry,
    r1: NftRegistry,
    r2: NftRegistry,
    ids: Seq<u128>,
    owner: Seq<char>,
    base_uri: Seq<char>,
    n: int,
)
    requires
        r0.recycled_nft_ids@.len() == 0,
        owned_ids(r0.nfts@, owner).len() == 0,
        batch_mint_ok(r0, r1, ids, owner, base_uri, n),
        batch_burn_ok(r1, r2, owner, n),
    ensures
        r2.recycled_nft_ids@ == ids,
{
    assert(owned_ids(r1.nfts@, owner) =~= ids);
    assert(owned_ids(r1.nfts@, owner).take(n) =~= ids);
    assert(r2.recycled_nft_ids@ =~= r1.recycled_nft_ids@ + ids);
    assert(r1.recycled_nft_ids@ =~= r0.recycled_nft_ids@.skip(0));
    assert(r1.recycled_nft_ids@.len() == 0);
    assert(r2.recycled_nft_ids@ =~= ids);
}

/// Law: an account whose item count equals `floor(balance / scale)` keeps
/// that equality through a reconciled balance increase: after minting the
/// computed delta, the count equals the floor of the new balance.
pub proof fn lemma_ratio_preserved_on_increase(
    count: int,
    balance: u128,
    amount: u128,
    scale: u128,
)
    requires
        scale > 0,
        balance + amount <= u128::MAX,
        count == balance as int / scale as int,
    ensures
        count + spec_nft_delta_on_increase(balance, amount, scale)
            == (balance + amount) / (scale as int),
{
}

/// Law: an account whose item count equals `floor(balance / scale)` keeps
/// that equality through a reconciled balance decrease: after burning the
/// computed delta, the count equals the floor of the new balance.
pub proof fn lemma_ratio_preserved_on_decrease(
    count: int,
    balance: u128,
    amount: u128,
    scale: u128,
)
    requires
        scale > 0,
        amount <= balance,
        count == balance as int / scale as int,
    ensures
        count - spec_nft_delta_on_decrease(balance, amount, scale)
            == (balance - amount) / (scale as int),
{
}

/// Law: a reconciled transfer between two distinct accounts whose item
/// counts both match `floor(balance / scale)` leaves both counts matching
/// the post-transfer balances.
pub proof fn lemma_transfer_preserves_ratio(
    pre: NftRegistry,
    mid: NftRegistry,
    post: NftRegistry,
    ids: Seq<u128>,
    from: Seq<char>,
    to: Seq<char>,
    base_uri: Seq<char>,
    from_balance: u128,
    to_balance: u128,
    amount: u128,
    scale: u128,
)
    requires
        scale > 0,
        amount <= from_balance,
        to_balance + amount <= u128::MAX,
        from != to,
        owned_ids(pre.nfts@, from).len() == from_balance as int / scale as int,
        owned_ids(pre.nfts@, to).len() == to_balance as int / scale as int,
        batch_burn_ok(pre, mid, from, spec_nft_delta_on_decrease(from_balance, amount, scale)),
        batch_mint_ok(
            mid,
            post,
            ids,
            to,
            base_uri,
            spec_nft_delta_on_increase(to_balance, amount, scale),
        ),
    ensures
        owned_ids(post.nfts@, from).len() == (from_balance - amount) / (scale as int),
        owned_ids(post.nfts@, to).len() == (to_balance + amount) / (scale as int),
{
    let bk = spec_nft_delta_on_decrease(from_balance, amount, scale);
    let mk = spec_nft_delta_on_increase(to_balance, amount, scale);
    vstd::arithmetic::div_mod::lemma_div_is_ordered(
        (from_balance - amount) as int,
        from_balance as int,
        scale as int,
    );
    vstd::arithmetic::div_mod::lemma_div_pos_is_pos((from_balance - amount) as int, scale as int);
    assert(0 <= bk <= owned_ids(pre.nfts@, from).len());
    assert(owned_ids(mid.nfts@, from) == owned_ids(pre.nfts@, from).skip(bk));
    assert(owned_ids(mid.nfts@, to) == owned_ids(pre.nfts@, to));
    assert(owned_ids(post.nfts@, from) == owned_ids(mid.nfts@, from));
    assert(owned_ids(post.nfts@, to).len() == owned_ids(mid.nfts@, to).len() + mk);
}

} // verus!
