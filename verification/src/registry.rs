//! The item registry: every existing item id mapped to its owner, approvals
//! and metadata uri, kept sorted by id, together with the FIFO pool of
//! recycled ids and the item supply counters.
//!
//! Allocation prefers ids popped from the front of the recycled pool and
//! falls back to fresh ids above every id ever allocated, so an id collision
//! is impossible while the registry is well formed.

use vstd::prelude::*;
use crate::expiration::Expiration;
use crate::error::ContractError;
use crate::token_id::{spec_dec_digits, u128_to_dec_string};

verus! {

/// One approval on one item: `spender` may send the item until `expires`.
#[derive(Debug)]
pub struct NftApproval {
    pub spender: String,
    pub expires: Expiration,
}

/// One existing item: its id, owner, approvals and metadata uri.
#[derive(Debug)]
pub struct Nft {
    pub id: u128,
    pub owner: String,
    pub approvals: Vec<NftApproval>,
    pub token_uri: Option<String>,
}

/// The first item with the given id, scanning left to right.
pub open spec fn spec_find_nft(s: Seq<Nft>, id: u128) -> Option<Nft>
    decreases s.len(),
{
    if s.len() == 0 {
        None
    } else if s[0].id == id {
        Some(s[0])
    } else {
        spec_find_nft(s.drop_first(), id)
    }
}

/// Whether an item with the given id exists.
pub open spec fn nft_exists(s: Seq<Nft>, id: u128) -> bool {
    spec_find_nft(s, id) is Some
}

/// The ids of the items owned by `owner`, in the order they appear in `s`.
/// On a well-formed registry that order is ascending by id.
pub open spec fn owned_ids(s: Seq<Nft>, owner: Seq<char>) -> Seq<u128>
    decreases s.len(),
{
    if s.len() == 0 {
        Seq::empty()
    } else if s[0].owner@ == owner {
        seq![s[0].id] + owned_ids(s.drop_first(), owner)
    } else {
        owned_ids(s.drop_first(), owner)
    }
}

/// The spenders of an approval list are pairwise distinct.
pub open spec fn distinct_spenders(approvals: Seq<NftApproval>) -> bool {
    forall|i: int, j: int|
        0 <= i < j < approvals.len() ==> approvals[i].spender@ != approvals[j].spender@
}

/// Splitting a scan for an id at any point: the left part wins if it holds
/// the id, otherwise the right part decides.
pub proof fn lemma_find_nft_concat(a: Seq<Nft>, b: Seq<Nft>, id: u128)
    ensures
        spec_find_nft(a + b, id) == if spec_find_nft(a, id) is Some {
            spec_find_nft(a, id)
        } else {
            spec_find_nft(b, id)
        },
    decreases a.len(),
{
    if a.len() == 0 {
        assert(a + b =~= b);
    } else {
        assert((a + b).drop_first() =~= a.drop_first() + b);
        lemma_find_nft_concat(a.drop_first(), b, id);
    }
}

/// The owner index distributes over concatenation.
pub proof fn lemma_owned_ids_concat(a: Seq<Nft>, b: Seq<Nft>, owner: Seq<char>)
    ensures
        owned_ids(a + b, owner) == owned_ids(a, owner) + owned_ids(b, owner),
    decreases a.len(),
{
    if a.len() == 0 {
        assert(a + b =~= b);
        assert(owned_ids(a, owner) + owned_ids(b, owner) =~= owned_ids(b, owner));
    } else {
        assert((a + b).drop_first() =~= a.drop_first() + b);
        lemma_owned_ids_concat(a.drop_first(), b, owner);
        if a[0].owner@ == owner {
            assert(seq![a[0].id] + (owned_ids(a.drop_first(), owner) + owned_ids(b, owner))
                =~= (seq![a[0].id] + owned_ids(a.drop_first(), owner)) + owned_ids(b, owner));
        }
    }
}

/// A scan of a one-element registry, written out.
pub proof fn lemma_find_nft_singleton(n: Nft, id: u128)
    ensures
        spec_find_nft(seq![n], id) == if n.id == id { Some(n) } else { None::<Nft> },
{
    assert(seq![n].drop_first() =~= Seq::<Nft>::empty());
    assert(spec_find_nft(Seq::<Nft>::empty(), id) is None);
}

/// The owner index of a one-element registry, written out.
pub proof fn lemma_owned_ids_singleton(n: Nft, owner: Seq<char>)
    ensures
        owned_ids(seq![n], owner) == if n.owner@ == owner {
            seq![n.id]
        } else {
            Seq::<u128>::empty()
        },
{
    assert(seq![n].drop_first() =~= Seq::<Nft>::empty());
    assert(owned_ids(Seq::<Nft>::empty(), owner) =~= Seq::<u128>::empty());
    if n.owner@ == owner {
        assert(owned_ids(seq![n], owner) =~= seq![n.id] + Seq::<u128>::empty());
        assert(seq![n.id] + Seq::<u128>::empty() =~= seq![n.id]);
    } else {
        assert(owned_ids(seq![n], owner) =~= Seq::<u128>::empty());
    }
}

/// A scan finds an id exactly when some element carries it, and what it
/// finds carries the id it was asked for.
pub proof fn lemma_find_nft_props(s: Seq<Nft>, id: u128)
    ensures
        nft_exists(s, id) == exists|k: int| 0 <= k < s.len() && s[k].id == id,
        spec_find_nft(s, id) matches Some(n) ==> n.id == id
            && exists|k: int| 0 <= k < s.len() && s[k] == n,
    decreases s.len(),
{
    if s.len() > 0 {
        lemma_find_nft_props(s.drop_first(), id);
        assert(forall|k: int| 0 <= k < s.drop_first().len()
            ==> s.drop_first()[k] == s[k + 1]);
        if s[0].id == id {
            assert(s[0].id == id && 0 < s.len());
        } else {
            if nft_exists(s.drop_first(), id) {
                let k = choose|k: int| 0 <= k < s.drop_first().len()
                    && s.drop_first()[k].id == id;
                assert(s[k + 1].id == id);
            }
            if exists|k: int| 0 <= k < s.len() && s[k].id == id {
                let k = choose|k: int| 0 <= k < s.len() && s[k].id == id;
                assert(k != 0);
                assert(s.drop_first()[k - 1].id == id);
            }
        }
    }
}

/// Every id the owner index lists belongs to an existing item of that owner,
/// and the index is no longer than the registry.
pub proof fn lemma_owned_ids_exist(s: Seq<Nft>, owner: Seq<char>)
    ensures
        forall|k: int| 0 <= k < owned_ids(s, owner).len()
            ==> exists|j: int| 0 <= j < s.len()
                && s[j].id == #[trigger] owned_ids(s, owner)[k]
                && s[j].owner@ == owner,
        owned_ids(s, owner).len() <= s.len(),
    decreases s.len(),
{
    if s.len() > 0 {
        lemma_owned_ids_exist(s.drop_first(), owner);
        let rest = owned_ids(s.drop_first(), owner);
        assert(forall|j: int| 0 <= j < s.drop_first().len()
            ==> s.drop_first()[j] == s[j + 1]);
        if s[0].owner@ == owner {
            assert(forall|k: int| 0 <= k < owned_ids(s, owner).len() && k >= 1
                ==> owned_ids(s, owner)[k] == rest[k - 1]);
        }
    }
}

/// A registry split around one element: the scan for an id decides on the
/// left part first, then the middle element, then the right part.
pub proof fn lemma_find_nft_three(a: Seq<Nft>, m: Nft, b: Seq<Nft>, id: u128)
    ensures
        spec_find_nft(a + seq![m] + b, id) == if spec_find_nft(a, id) is Some {
            spec_find_nft(a, id)
        } else if m.id == id {
            Some(m)
        } else {
            spec_find_nft(b, id)
        },
{
    assert((a + seq![m]) + b =~= a + seq![m] + b);
    lemma_find_nft_concat(a + seq![m], b, id);
    lemma_find_nft_concat(a, seq![m], id);
    lemma_find_nft_singleton(m, id);
}

/// A registry split around one element: the owner index is the two side
/// indices with the middle id spliced in when its owner matches.
pub proof fn lemma_owned_ids_three(a: Seq<Nft>, m: Nft, b: Seq<Nft>, owner: Seq<char>)
    ensures
        owned_ids(a + seq![m] + b, owner) == owned_ids(a, owner)
            + (if m.owner@ == owner { seq![m.id] } else { Seq::<u128>::empty() })
            + owned_ids(b, owner),
{
    assert((a + seq![m]) + b =~= a + seq![m] + b);
    lemma_owned_ids_concat(a + seq![m], b, owner);
    lemma_owned_ids_concat(a, seq![m], owner);
    lemma_owned_ids_singleton(m, owner);
}

/// The uri a freshly minted item carries: the collection base uri, a slash,
/// then the item id in decimal.
pub open spec fn spec_token_uri(base_uri: Seq<char>, id: u128) -> Seq<char> {
    base_uri + seq!['/'] + spec_dec_digits(id as int)
}

/// Build the uri of a freshly minted item.
pub fn make_token_uri(base_uri: &str, id: u128) -> (s: String)
    ensures
        s@ == spec_token_uri(base_uri@, id),
{
    let mut s = base_uri.to_owned();
    proof {
        reveal_strlit("/");
    }
    s.append("/");
    let digits = u128_to_dec_string(id);
    s.append(digits.as_str());
    proof {
        assert(s@ =~= base_uri@ + seq!['/'] + spec_dec_digits(id as int));
    }
    s
}

/// What a freshly minted item looks like: owned by the mint recipient, with
/// no approvals, carrying the derived uri.
pub open spec fn is_minted_nft(n: Nft, id: u128, owner: Seq<char>, base_uri: Seq<char>) -> bool {
    &&& n.id == id
    &&& n.owner@ == owner
    &&& n.approvals@.len() == 0
    &&& n.token_uri matches Some(u) && u@ == spec_token_uri(base_uri, id)
}

/// The registry of existing items, the recycled-id pool, and the supply
/// counters.
pub struct NftRegistry {
    /// Existing items, sorted strictly ascending by id.
    pub nfts: Vec<Nft>,
    /// Ids freed by burns, oldest burn first; reused from the front.
    pub recycled_nft_ids: Vec<u128>,
    /// Number of currently existing items.
    pub current_nft_supply: u128,
    /// Hard cap on the number of simultaneously existing items.
    pub max_nft_supply: u128,
}

impl NftRegistry {
    /// The highest id ever allocated: every existing or recycled id lies in
    /// `1 ..= watermark`, and fresh ids are allocated right above it.
    pub open spec fn watermark(self) -> int {
        self.nfts@.len() + self.recycled_nft_ids@.len() as int
    }

    /// Well-formedness: sorted unique ids, ids within the watermark, the
    /// recycled pool distinct and disjoint from existing ids, supply
    /// counters consistent and within the cap, approvals without duplicate
    /// spenders.
    pub open spec fn wf(self) -> bool {
        &&& forall|i: int, j: int| 0 <= i < j < self.nfts@.len()
            ==> self.nfts@[i].id < self.nfts@[j].id
        &&& forall|i: int| 0 <= i < self.nfts@.len()
            ==> 1 <= #[trigger] self.nfts@[i].id <= self.watermark()
        &&& forall|i: int| 0 <= i < self.recycled_nft_ids@.len()
            ==> 1 <= #[trigger] self.recycled_nft_ids@[i] <= self.watermark()
        &&& forall|i: int, j: int| 0 <= i < j < self.recycled_nft_ids@.len()
            ==> self.recycled_nft_ids@[i] != self.recycled_nft_ids@[j]
        &&& forall|i: int| 0 <= i < self.recycled_nft_ids@.len()
            ==> !nft_exists(self.nfts@, self.recycled_nft_ids@[i])
        &&& self.current_nft_supply == self.nfts@.len()
        &&& self.current_nft_supply <= self.max_nft_supply
        &&& self.watermark() <= self.max_nft_supply
        &&& forall|i: int| 0 <= i < self.nfts@.len()
            ==> distinct_spenders(#[trigger] self.nfts@[i].approvals@)
    }

    /// An empty registry with the given item supply cap.
    pub fn new(max_nft_supply: u128) -> (r: NftRegistry)
        ensures
            r.wf(),
            r.nfts@.len() == 0,
            r.recycled_nft_ids@.len() == 0,
            r.current_nft_supply == 0,
            r.max_nft_supply == max_nft_supply,
    {
        NftRegistry {
            nfts: Vec::new(),
            recycled_nft_ids: Vec::new(),
            current_nft_supply: 0,
            max_nft_supply,
        }
    }

    /// Position of the item with the given id, if it exists.
    pub fn find_index(&self, id: u128) -> (r: Option<usize>)
        ensures
            match r {
                Some(i) => i < self.nfts@.len() && self.nfts@[i as int].id == id
                    && spec_find_nft(self.nfts@, id) == Some(self.nfts@[i as int]),
                None => !nft_exists(self.nfts@, id),
            },
    {
        let n = self.nfts.len();
        for j in 0..n
            invariant
                n == self.nfts@.len(),
                spec_find_nft(self.nfts@.take(j as int), id) is None,
        {
            proof {
                assert(self.nfts@.take(j + 1) =~= self.nfts@.take(j as int)
                    + seq![self.nfts@[j as int]]);
                lemma_find_nft_concat(
                    self.nfts@.take(j as int),
                    seq![self.nfts@[j as int]],
                    id,
                );
                lemma_find_nft_singleton(self.nfts@[j as int], id);
            }
            if self.nfts[j].id == id {
                proof {
                    assert(self.nfts@ =~= self.nfts@.take(j + 1)
                        + self.nfts@.skip(j + 1));
                    lemma_find_nft_concat(self.nfts@.take(j + 1), self.nfts@.skip(j + 1), id);
                }
                return Some(j);
            }
        }
        proof {
            assert(self.nfts@.take(n as int) =~= self.nfts@);
        }
        None
    }

    /// How many items `owner` currently owns.
    pub fn count_owned(&self, owner: &String) -> (r: u128)
        ensures
            r == owned_ids(self.nfts@, owner@).len(),
    {
        let n = self.nfts.len();
        let mut count: u128 = 0;
        for j in 0..n
            invariant
                n == self.nfts@.len(),
                count == owned_ids(self.nfts@.take(j as int), owner@).len(),
                count <= j,
        {
            proof {
                assert(self.nfts@.take(j + 1) =~= self.nfts@.take(j as int)
                    + seq![self.nfts@[j as int]]);
                lemma_owned_ids_concat(
                    self.nfts@.take(j as int),
                    seq![self.nfts@[j as int]],
                    owner@,
                );
                lemma_owned_ids_singleton(self.nfts@[j as int], owner@);
            }
            if self.nfts[j].owner == *owner {
                count = count + 1;
            }
        }
        proof {
            assert(self.nfts@.take(n as int) =~= self.nfts@);
        }
        count
    }

    /// The id the next mint will use: the front of the recycled pool, or
    /// the next fresh id above everything allocated so far.
    pub open spec fn next_id(self) -> u128 {
        if self.recycled_nft_ids@.len() > 0 {
            self.recycled_nft_ids@[0]
        } else {
            (self.current_nft_supply + 1) as u128
        }
    }

    /// The ids `amount` consecutive mints will use: the front of the
    /// recycled pool in pool order, then fresh ids right above the
    /// watermark.
    pub open spec fn spec_minted_ids(self, amount: int) -> Seq<u128> {
        let k = if amount <= self.recycled_nft_ids@.len() {
            amount
        } else {
            self.recycled_nft_ids@.len() as int
        };
        self.recycled_nft_ids@.take(k)
            + Seq::new((amount - k) as nat, |j: int| (self.watermark() + 1 + j) as u128)
    }
}

/// How minting one item to `owner` changes the registry: the allocated id
/// leaves the recycled pool (or is fresh), a new item with that id appears
/// for `owner`, and nothing else changes.
pub open spec fn mint_one_ok(
    pre: NftRegistry,
    post: NftRegistry,
    id: u128,
    owner: Seq<char>,
    base_uri: Seq<char>,
) -> bool {
    &&& id == pre.next_id()
    &&& !nft_exists(pre.nfts@, id)
    &&& post.recycled_nft_ids@ == if pre.recycled_nft_ids@.len() > 0 {
        pre.recycled_nft_ids@.drop_first()
    } else {
        pre.recycled_nft_ids@
    }
    &&& post.current_nft_supply == pre.current_nft_supply + 1
    &&& post.max_nft_supply == pre.max_nft_supply
    &&& forall|x: u128| nft_exists(post.nfts@, x) == (nft_exists(pre.nfts@, x) || x == id)
    &&& spec_find_nft(post.nfts@, id) matches Some(n) && is_minted_nft(n, id, owner, base_uri)
    &&& forall|x: u128| x != id ==> spec_find_nft(post.nfts@, x) == spec_find_nft(pre.nfts@, x)
    &&& owned_ids(post.nfts@, owner).len() == owned_ids(pre.nfts@, owner).len() + 1
    &&& forall|o: Seq<char>| o != owner ==> owned_ids(post.nfts@, o) == owned_ids(pre.nfts@, o)
    &&& pre.recycled_nft_ids@.len() == 0
        ==> owned_ids(post.nfts@, owner) == owned_ids(pre.nfts@, owner).push(id)
}

/// How a batch mint of `amount` items to `owner` changes the registry.
pub open spec fn batch_mint_ok(
    pre: NftRegistry,
    post: NftRegistry,
    ids: Seq<u128>,
    owner: Seq<char>,
    base_uri: Seq<char>,
    amount: int,
) -> bool {
    let k = if amount <= pre.recycled_nft_ids@.len() {
        amount
    } else {
        pre.recycled_nft_ids@.len() as int
    };
    &&& ids == pre.spec_minted_ids(amount)
    &&& post.recycled_nft_ids@ == pre.recycled_nft_ids@.skip(k)
    &&& post.current_nft_supply == pre.current_nft_supply + amount
    &&& post.max_nft_supply == pre.max_nft_supply
    &&& forall|x: u128| nft_exists(post.nfts@, x) == (nft_exists(pre.nfts@, x)
        || ids.contains(x))
    &&& forall|x: u128| ids.contains(x) ==> !nft_exists(pre.nfts@, x)
        && (spec_find_nft(post.nfts@, x) matches Some(n)
            && is_minted_nft(n, x, owner, base_uri))
    &&& forall|x: u128| !ids.contains(x)
        ==> spec_find_nft(post.nfts@, x) == spec_find_nft(pre.nfts@, x)
    &&& owned_ids(post.nfts@, owner).len() == owned_ids(pre.nfts@, owner).len() + amount
    &&& forall|o: Seq<char>| o != owner ==> owned_ids(post.nfts@, o) == owned_ids(pre.nfts@, o)
    &&& pre.recycled_nft_ids@.len() == 0
        ==> owned_ids(post.nfts@, owner) == owned_ids(pre.nfts@, owner) + ids
}

impl NftRegistry {
    /// Mint one item to `owner`, reusing the oldest recycled id if one is
    /// waiting and allocating a fresh id otherwise. A collision with an
    /// existing id is impossible on a well-formed registry.
    fn mint_one(&mut self, owner: &String, base_uri: &str) -> (id: u128)
        requires
            old(self).wf(),
            old(self).current_nft_supply < old(self).max_nft_supply,
        ensures
            final(self).wf(),
            mint_one_ok(*old(self), *final(self), id, owner@, base_uri@),
    {
        let ghost pre = *self;
        let id: u128 = if self.recycled_nft_ids.len() > 0 {
            self.recycled_nft_ids.remove(0)
        } else {
            self.current_nft_supply + 1
        };
        proof {
            assert(pre.recycled_nft_ids@.len() > 0
                ==> self.recycled_nft_ids@ =~= pre.recycled_nft_ids@.drop_first());
            if pre.recycled_nft_ids@.len() == 0 {
                lemma_find_nft_props(pre.nfts@, id);
            }
            assert(!nft_exists(pre.nfts@, id));
        }
        let nft = Nft {
            id,
            owner: owner.clone(),
            approvals: Vec::new(),
            token_uri: Some(make_token_uri(base_uri, id)),
        };
        // Insertion point: the first position whose id is larger.
        let n = self.nfts.len();
        let mut pos: usize = 0;
        while pos < n && self.nfts[pos].id < id
            invariant
                n == self.nfts@.len(),
                pos <= n,
                forall|k: int| 0 <= k < pos ==> self.nfts@[k].id < id,
            decreases n - pos,
        {
            pos = pos + 1;
        }
        proof {
            lemma_find_nft_props(self.nfts@, id);
            assert(forall|k: int| 0 <= k < self.nfts@.len() ==> self.nfts@[k].id != id);
            assert forall|k: int| pos <= k < self.nfts@.len() implies
                id < self.nfts@[k].id by {
                assert(self.nfts@[pos as int].id > id);
            }
        }
        let ghost mid = *self;
        self.nfts.insert(pos, nft);
        self.current_nft_supply = self.current_nft_supply + 1;
        proof {
            let a = mid.nfts@.take(pos as int);
            let b = mid.nfts@.skip(pos as int);
            let s1 = self.nfts@;
            assert(s1 =~= a + seq![nft] + b);
            assert(mid.nfts@ =~= a + b);
            lemma_mint_insert_effects(a, b, nft, pre.nfts@, id, owner@, base_uri@);
            if pre.recycled_nft_ids@.len() == 0 {
                assert(b.len() == 0);
                assert(pre.nfts@ =~= a);
                lemma_owned_ids_three(a, nft, b, owner@);
                lemma_owned_ids_singleton(nft, owner@);
                assert(owned_ids(self.nfts@, owner@) =~= owned_ids(pre.nfts@, owner@).push(
                    id,
                ));
            }
            assert(mint_one_ok(pre, *self, id, owner@, base_uri@));
            assert(self.wf());
        }
        id
    }

    /// Mint `amount` items to `owner`, draining the recycled pool from the
    /// front before allocating fresh ids. Fails with a capacity error, and
    /// changes nothing, when the batch would push the supply past the cap.
    pub fn batch_mint_nft(&mut self, owner: &String, base_uri: &str, amount: u128) -> (r:
        Result<Vec<u128>, ContractError>)
        requires
            old(self).wf(),
        ensures
            final(self).wf(),
            match r {
                Ok(ids) => amount <= old(self).max_nft_supply - old(self).current_nft_supply
                    && batch_mint_ok(
                        *old(self),
                        *final(self),
                        ids@,
                        owner@,
                        base_uri@,
                        amount as int,
                    ),
                Err(e) => amount > old(self).max_nft_supply - old(self).current_nft_supply
                    && *final(self) == *old(self)
                    && e == (ContractError::MaxNftSupplyReached {
                        current_nft_supply: old(self).current_nft_supply,
                        max_nft_supply: old(self).max_nft_supply,
                        mint_amount: amount,
                    }),
            },
    {
        if amount > self.max_nft_supply - self.current_nft_supply {
            return Err(ContractError::MaxNftSupplyReached {
                current_nft_supply: self.current_nft_supply,
                max_nft_supply: self.max_nft_supply,
                mint_amount: amount,
            });
        }
        let ghost pre = *self;
        let ghost rlen = pre.recycled_nft_ids@.len() as int;
        let mut ids: Vec<u128> = Vec::new();
        let mut i: u128 = 0;
        while i < amount
            invariant
                self.wf(),
                i <= amount,
                amount <= pre.max_nft_supply - pre.current_nft_supply,
                pre.wf(),
                rlen == pre.recycled_nft_ids@.len(),
                self.current_nft_supply == pre.current_nft_supply + i,
                self.max_nft_supply == pre.max_nft_supply,
                ids@.len() == i,
                ids@ == pre.spec_minted_ids(i as int),
                self.recycled_nft_ids@ == pre.recycled_nft_ids@.skip(
                    if i as int <= rlen { i as int } else { rlen },
                ),
                forall|x: u128| #[trigger] nft_exists(self.nfts@, x) == (nft_exists(
                    pre.nfts@,
                    x,
                ) || ids@.contains(x)),
                forall|x: u128| #[trigger] ids@.contains(x) ==> !nft_exists(pre.nfts@, x)
                    && (spec_find_nft(self.nfts@, x) matches Some(n)
                        && is_minted_nft(n, x, owner@, base_uri@)),
                forall|x: u128| !ids@.contains(x)
                    ==> #[trigger] spec_find_nft(self.nfts@, x) == spec_find_nft(
                        pre.nfts@,
                        x,
                    ),
                owned_ids(self.nfts@, owner@).len() == owned_ids(pre.nfts@, owner@).len()
                    + i,
                forall|o: Seq<char>| o != owner@
                    ==> owned_ids(self.nfts@, o) == owned_ids(pre.nfts@, o),
                rlen == 0 ==> owned_ids(self.nfts@, owner@) == owned_ids(pre.nfts@, owner@)
                    + ids@,
            decreases amount - i,
        {
            let ghost cur = *self;
            let ghost old_ids = ids@;
            let id = self.mint_one(owner, base_uri);
            ids.push(id);
            proof {
                let k1 = if i + 1 <= rlen { i as int + 1 } else { rlen };
                if (i as int) < rlen {
                    assert(cur.recycled_nft_ids@[0] == pre.recycled_nft_ids@[i as int]);
                    assert(self.recycled_nft_ids@ =~= pre.recycled_nft_ids@.skip(k1));
                } else {
                    assert(cur.recycled_nft_ids@.len() == 0);
                    assert(id == pre.current_nft_supply + i + 1);
                    assert(self.recycled_nft_ids@ =~= pre.recycled_nft_ids@.skip(k1));
                }
                assert forall|y: u128| ids@.contains(y) == (old_ids.contains(y) || y
                    == id) by {
                    if old_ids.contains(y) {
                        let w = choose|j: int| 0 <= j < old_ids.len() && old_ids[j] == y;
                        assert(ids@[w] == y);
                    }
                    if y == id {
                        assert(ids@[old_ids.len() as int] == y);
                    }
                    if ids@.contains(y) {
                        let w = choose|j: int| 0 <= j < ids@.len() && ids@[j] == y;
                        if w < old_ids.len() {
                            assert(old_ids[w] == y);
                        }
                    }
                }
                assert(ids@ =~= pre.spec_minted_ids(i as int + 1));
                assert(!nft_exists(cur.nfts@, id));
                assert(nft_exists(cur.nfts@, id) == (nft_exists(pre.nfts@, id)
                    || old_ids.contains(id)));
                assert(!nft_exists(pre.nfts@, id));
                assert forall|x: u128| #[trigger] ids@.contains(x) implies
                    !nft_exists(pre.nfts@, x)
                    && (spec_find_nft(self.nfts@, x) matches Some(n)
                        && is_minted_nft(n, x, owner@, base_uri@)) by {
                    if x == id {
                    } else {
                        assert(old_ids.contains(x));
                        assert(nft_exists(cur.nfts@, x));
                        assert(x != id);
                        assert(spec_find_nft(self.nfts@, x) == spec_find_nft(cur.nfts@, x));
                    }
                }
                assert forall|x: u128| nft_exists(self.nfts@, x) == (nft_exists(
                    pre.nfts@,
                    x,
                ) || ids@.contains(x)) by {
                    if !ids@.contains(x) {
                        assert(!old_ids.contains(x));
                        assert(x != id);
                    }
                }
                assert forall|x: u128| !ids@.contains(x) implies
                    spec_find_nft(self.nfts@, x) == spec_find_nft(pre.nfts@, x) by {
                    assert(!old_ids.contains(x));
                    assert(x != id);
                }
                if rlen == 0 {
                    assert(cur.recycled_nft_ids@.len() == 0);
                    assert(owned_ids(self.nfts@, owner@) == owned_ids(
                        cur.nfts@,
                        owner@,
                    ).push(id));
                    assert(owned_ids(self.nfts@, owner@) =~= owned_ids(pre.nfts@, owner@)
                        + ids@);
                }
            }
            i = i + 1;
        }
        proof {
            assert(ids@ == pre.spec_minted_ids(amount as int));
            assert(self.recycled_nft_ids@ == pre.recycled_nft_ids@.skip(
                if amount as int <= rlen { amount as int } else { rlen },
            ));
        }
        Ok(ids)
    }
}

/// How burning the first item `owner` owns changes the registry: the item
/// disappears, its id joins the tail of the recycled pool, and nothing else
/// changes.
pub open spec fn burn_one_ok(
    pre: NftRegistry,
    post: NftRegistry,
    id: u128,
    owner: Seq<char>,
) -> bool {
    &&& nft_exists(pre.nfts@, id)
    &&& post.recycled_nft_ids@ == pre.recycled_nft_ids@.push(id)
    &&& post.current_nft_supply == pre.current_nft_supply - 1
    &&& post.max_nft_supply == pre.max_nft_supply
    &&& forall|x: u128| nft_exists(post.nfts@, x) == (nft_exists(pre.nfts@, x) && x != id)
    &&& forall|x: u128| x != id ==> spec_find_nft(post.nfts@, x) == spec_find_nft(pre.nfts@, x)
    &&& owned_ids(post.nfts@, owner) == owned_ids(pre.nfts@, owner).drop_first()
    &&& forall|o: Seq<char>| o != owner ==> owned_ids(post.nfts@, o) == owned_ids(pre.nfts@, o)
}

/// How a batch burn of `amount` items of `owner` changes the registry: the
/// owner's `amount` lowest ids leave the registry and join the tail of the
/// recycled pool in ascending order, and nothing else changes.
pub open spec fn batch_burn_ok(
    pre: NftRegistry,
    post: NftRegistry,
    owner: Seq<char>,
    amount: int,
) -> bool {
    let burned = owned_ids(pre.nfts@, owner).take(amount);
    &&& post.recycled_nft_ids@ == pre.recycled_nft_ids@ + burned
    &&& post.current_nft_supply == pre.current_nft_supply - amount
    &&& post.max_nft_supply == pre.max_nft_supply
    &&& owned_ids(post.nfts@, owner) == owned_ids(pre.nfts@, owner).skip(amount)
    &&& forall|o: Seq<char>| o != owner ==> owned_ids(post.nfts@, o) == owned_ids(pre.nfts@, o)
    &&& forall|x: u128| #[trigger] nft_exists(post.nfts@, x) == (nft_exists(pre.nfts@, x)
        && !burned.contains(x))
    &&& forall|x: u128| !burned.contains(x)
        ==> #[trigger] spec_find_nft(post.nfts@, x) == spec_find_nft(pre.nfts@, x)
}

/// Effects of removing one element out of a registry whose left part holds
/// nothing of the element's owner.
proof fn lemma_burn_remove_effects(a: Seq<Nft>, m: Nft, b: Seq<Nft>, owner: Seq<char>)
    requires
        m.owner@ == owner,
        owned_ids(a, owner).len() == 0,
        forall|k: int| 0 <= k < a.len() ==> a[k].id < m.id,
        forall|k: int| 0 <= k < b.len() ==> m.id < b[k].id,
    ensures
        spec_find_nft(a + seq![m] + b, m.id) == Some(m),
        nft_exists(a + b, m.id) == false,
        forall|x: u128| x != m.id
            ==> spec_find_nft(a + b, x) == spec_find_nft(a + seq![m] + b, x),
        forall|x: u128| nft_exists(a + b, x) == (nft_exists(a + seq![m] + b, x) && x != m.id),
        owned_ids(a + seq![m] + b, owner) == seq![m.id] + owned_ids(a + b, owner),
        forall|o: Seq<char>| o != owner
            ==> owned_ids(a + b, o) == owned_ids(a + seq![m] + b, o),
{
    let s1 = a + seq![m] + b;
    let s0 = a + b;
    lemma_find_nft_props(a, m.id);
    lemma_find_nft_props(b, m.id);
    lemma_find_nft_three(a, m, b, m.id);
    lemma_find_nft_concat(a, b, m.id);
    assert forall|x: u128| x != m.id implies
        spec_find_nft(s0, x) == spec_find_nft(s1, x) by {
        lemma_find_nft_three(a, m, b, x);
        lemma_find_nft_concat(a, b, x);
    }
    assert forall|x: u128| nft_exists(s0, x) == (nft_exists(s1, x) && x != m.id) by {
        lemma_find_nft_three(a, m, b, x);
        lemma_find_nft_concat(a, b, x);
    }
    lemma_owned_ids_three(a, m, b, owner);
    lemma_owned_ids_concat(a, b, owner);
    assert(owned_ids(a, owner) =~= Seq::<u128>::empty());
    assert(owned_ids(s1, owner) =~= seq![m.id] + owned_ids(s0, owner));
    assert forall|o: Seq<char>| o != owner implies
        owned_ids(s0, o) == owned_ids(s1, o) by {
        lemma_owned_ids_three(a, m, b, o);
        lemma_owned_ids_concat(a, b, o);
        assert(owned_ids(s1, o) =~= owned_ids(a, o) + owned_ids(b, o));
    }
}

impl NftRegistry {
    /// Burn the item of `owner` with the lowest id, moving its id to the
    /// tail of the recycled pool. Returns the burned id, or nothing when
    /// `owner` owns no item.
    fn burn_first_owned(&mut self, owner: &String) -> (r: Option<u128>)
        requires
            old(self).wf(),
        ensures
            final(self).wf(),
            match r {
                Some(id) => owned_ids(old(self).nfts@, owner@).len() > 0
                    && id == owned_ids(old(self).nfts@, owner@)[0]
                    && burn_one_ok(*old(self), *final(self), id, owner@),
                None => owned_ids(old(self).nfts@, owner@).len() == 0
                    && *final(self) == *old(self),
            },
    {
        let ghost pre = *self;
        let n = self.nfts.len();
        for j in 0..n
            invariant
                pre == *self,
                pre == *old(self),
                n == self.nfts@.len(),
                pre.wf(),
                owned_ids(self.nfts@.take(j as int), owner@).len() == 0,
        {
            proof {
                assert(self.nfts@.take(j + 1) =~= self.nfts@.take(j as int)
                    + seq![self.nfts@[j as int]]);
                lemma_owned_ids_concat(
                    self.nfts@.take(j as int),
                    seq![self.nfts@[j as int]],
                    owner@,
                );
                lemma_owned_ids_singleton(self.nfts@[j as int], owner@);
            }
            if self.nfts[j].owner == *owner {
                let id = self.nfts[j].id;
                let ghost a = self.nfts@.take(j as int);
                let ghost m = self.nfts@[j as int];
                let ghost b = self.nfts@.skip(j + 1);
                proof {
                    assert(self.nfts@ =~= a + seq![m] + b);
                }
                self.nfts.remove(j);
                self.recycled_nft_ids.push(id);
                self.current_nft_supply = self.current_nft_supply - 1;
                proof {
                    assert(self.nfts@ =~= a + b);
                    lemma_burn_remove_effects(a, m, b, owner@);
                    assert(owned_ids(pre.nfts@, owner@) =~= seq![m.id]
                        + owned_ids(self.nfts@, owner@));
                    assert(owned_ids(self.nfts@, owner@) =~= owned_ids(
                        pre.nfts@,
                        owner@,
                    ).drop_first());
                    assert(burn_one_ok(pre, *self, id, owner@));
                    assert forall|i: int| 0 <= i < self.recycled_nft_ids@.len() implies
                        1 <= #[trigger] self.recycled_nft_ids@[i] <= self.watermark()
                        && !nft_exists(self.nfts@, self.recycled_nft_ids@[i]) by {
                        if i < pre.recycled_nft_ids@.len() {
                            assert(pre.recycled_nft_ids@[i] == self.recycled_nft_ids@[i]);
                        } else {
                            assert(self.recycled_nft_ids@[i] == id);
                        }
                    }
                    assert(self.wf());
                }
                return Some(id);
            }
        }
        proof {
            assert(self.nfts@.take(n as int) =~= self.nfts@);
        }
        None
    }

    /// Burn `amount` items of `owner`, choosing the owner's lowest ids
    /// first, appending each id to the tail of the recycled pool in burn
    /// order. Fails, and changes nothing, when `owner` owns fewer than
    /// `amount` items.
    pub fn batch_burn_nft(&mut self, owner: &String, amount: u128) -> (r: Result<
        (),
        ContractError,
    >)
        requires
            old(self).wf(),
        ensures
            final(self).wf(),
            match r {
                Ok(()) => amount <= owned_ids(old(self).nfts@, owner@).len()
                    && batch_burn_ok(*old(self), *final(self), owner@, amount as int),
                Err(e) => amount > owned_ids(old(self).nfts@, owner@).len()
                    && *final(self) == *old(self)
                    && e == (ContractError::CannotBurnMoreNftThanOwned {
                        available: owned_ids(old(self).nfts@, owner@).len() as u128,
                        try_to_burn: amount,
                    }),
            },
    {
        let available = self.count_owned(owner);
        if available < amount {
            return Err(ContractError::CannotBurnMoreNftThanOwned {
                available,
                try_to_burn: amount,
            });
        }
        let ghost pre = *self;
        let ghost all_owned = owned_ids(pre.nfts@, owner@);
        let mut i: u128 = 0;
        while i < amount
            invariant
                self.wf(),
                pre.wf(),
                i <= amount,
                amount <= all_owned.len(),
                all_owned == owned_ids(pre.nfts@, owner@),
                self.recycled_nft_ids@ == pre.recycled_nft_ids@ + all_owned.take(i as int),
                self.current_nft_supply == pre.current_nft_supply - i,
                self.max_nft_supply == pre.max_nft_supply,
                owned_ids(self.nfts@, owner@) == all_owned.skip(i as int),
                forall|o: Seq<char>| o != owner@
                    ==> owned_ids(self.nfts@, o) == owned_ids(pre.nfts@, o),
                forall|x: u128| #[trigger] nft_exists(self.nfts@, x) == (nft_exists(
                    pre.nfts@,
                    x,
                ) && !all_owned.take(i as int).contains(x)),
                forall|x: u128| !all_owned.take(i as int).contains(x)
                    ==> #[trigger] spec_find_nft(self.nfts@, x) == spec_find_nft(
                        pre.nfts@,
                        x,
                    ),
            decreases amount - i,
        {
            let ghost cur = *self;
            let r = self.burn_first_owned(owner);
            proof {
                assert(owned_ids(cur.nfts@, owner@).len() > 0);
            }
            let ghost id = all_owned[i as int];
            proof {
                assert(owned_ids(cur.nfts@, owner@)[0] == all_owned.skip(i as int)[0]);
                assert(all_owned.skip(i as int)[0] == all_owned[i as int]);
                assert(r == Some(id));
                assert(self.recycled_nft_ids@ =~= pre.recycled_nft_ids@ + all_owned.take(
                    i as int + 1,
                ));
                assert(owned_ids(self.nfts@, owner@) =~= all_owned.skip(i as int + 1));
                assert(nft_exists(cur.nfts@, id));
                assert forall|y: u128| all_owned.take(i as int + 1).contains(y) == (
                    all_owned.take(i as int).contains(y) || y == id) by {
                    let t0 = all_owned.take(i as int);
                    let t1 = all_owned.take(i as int + 1);
                    if t0.contains(y) {
                        let w = choose|w: int| 0 <= w < t0.len() && t0[w] == y;
                        assert(t1[w] == y);
                    }
                    if y == id {
                        assert(t1[i as int] == y);
                    }
                    if t1.contains(y) {
                        let w = choose|w: int| 0 <= w < t1.len() && t1[w] == y;
                        if w < i as int {
                            assert(t0[w] == y);
                        } else {
                            assert(y == id);
                        }
                    }
                }
            }
            i = i + 1;
        }
        proof {
            assert(all_owned.take(amount as int) == owned_ids(pre.nfts@, owner@).take(
                amount as int,
            ));
        }
        Ok(())
    }
}

/// Effects of replacing one element of a sorted registry by another element
/// with the same id.
proof fn lemma_replace_effects(a: Seq<Nft>, m: Nft, m2: Nft, b: Seq<Nft>)
    requires
        m2.id == m.id,
        forall|k: int| 0 <= k < a.len() ==> a[k].id < m.id,
        forall|k: int| 0 <= k < b.len() ==> m.id < b[k].id,
    ensures
        spec_find_nft(a + seq![m] + b, m.id) == Some(m),
        spec_find_nft(a + seq![m2] + b, m.id) == Some(m2),
        forall|x: u128| x != m.id
            ==> spec_find_nft(a + seq![m2] + b, x) == spec_find_nft(a + seq![m] + b, x),
        forall|x: u128| nft_exists(a + seq![m2] + b, x) == nft_exists(a + seq![m] + b, x),
        m.owner@ == m2.owner@ ==> forall|o: Seq<char>|
            owned_ids(a + seq![m2] + b, o) == owned_ids(a + seq![m] + b, o),
        m.owner@ != m2.owner@ ==> owned_ids(a + seq![m2] + b, m.owner@).len()
            == owned_ids(a + seq![m] + b, m.owner@).len() - 1
            && owned_ids(a + seq![m2] + b, m2.owner@).len()
                == owned_ids(a + seq![m] + b, m2.owner@).len() + 1,
        forall|o: Seq<char>| o != m.owner@ && o != m2.owner@
            ==> owned_ids(a + seq![m2] + b, o) == owned_ids(a + seq![m] + b, o),
{
    let s1 = a + seq![m] + b;
    let s2 = a + seq![m2] + b;
    lemma_find_nft_props(a, m.id);
    lemma_find_nft_three(a, m, b, m.id);
    lemma_find_nft_three(a, m2, b, m.id);
    assert forall|x: u128| x != m.id implies
        spec_find_nft(s2, x) == spec_find_nft(s1, x) by {
        lemma_find_nft_three(a, m, b, x);
        lemma_find_nft_three(a, m2, b, x);
    }
    assert forall|x: u128| nft_exists(s2, x) == nft_exists(s1, x) by {
        lemma_find_nft_three(a, m, b, x);
        lemma_find_nft_three(a, m2, b, x);
    }
    assert forall|o: Seq<char>| owned_ids(s2, o) == owned_ids(a, o)
        + (if m2.owner@ == o { seq![m2.id] } else { Seq::<u128>::empty() })
        + owned_ids(b, o) by {
        lemma_owned_ids_three(a, m2, b, o);
    }
    assert forall|o: Seq<char>| owned_ids(s1, o) == owned_ids(a, o)
        + (if m.owner@ == o { seq![m.id] } else { Seq::<u128>::empty() })
        + owned_ids(b, o) by {
        lemma_owned_ids_three(a, m, b, o);
    }
    if m.owner@ == m2.owner@ {
        assert forall|o: Seq<char>| owned_ids(s2, o) == owned_ids(s1, o) by {
            assert(owned_ids(s2, o) =~= owned_ids(s1, o));
        }
    }
    assert forall|o: Seq<char>| o != m.owner@ && o != m2.owner@ implies
        owned_ids(s2, o) == owned_ids(s1, o) by {
        assert(owned_ids(s2, o) =~= owned_ids(s1, o));
    }
}

/// How burning one item by id changes the registry: the item disappears,
/// its id joins the tail of the recycled pool, its owner owns one item
/// fewer, and nothing else changes.
pub open spec fn burn_id_ok(pre: NftRegistry, post: NftRegistry, id: u128) -> bool {
    &&& spec_find_nft(pre.nfts@, id) matches Some(n) && {
        &&& owned_ids(post.nfts@, n.owner@).len() == owned_ids(pre.nfts@, n.owner@).len() - 1
        &&& forall|o: Seq<char>| o != n.owner@
            ==> owned_ids(post.nfts@, o) == owned_ids(pre.nfts@, o)
    }
    &&& post.recycled_nft_ids@ == pre.recycled_nft_ids@.push(id)
    &&& post.current_nft_supply == pre.current_nft_supply - 1
    &&& post.max_nft_supply == pre.max_nft_supply
    &&& forall|x: u128| nft_exists(post.nfts@, x) == (nft_exists(pre.nfts@, x) && x != id)
    &&& forall|x: u128| x != id
        ==> spec_find_nft(post.nfts@, x) == spec_find_nft(pre.nfts@, x)
}

/// How a transfer of one item changes the registry: the item keeps its id
/// and uri, its owner becomes the recipient, its approvals are cleared, and
/// nothing else changes.
pub open spec fn transfer_ok(
    pre: NftRegistry,
    post: NftRegistry,
    id: u128,
    recipient: Seq<char>,
) -> bool {
    &&& spec_find_nft(pre.nfts@, id) matches Some(n) && {
        &&& spec_find_nft(post.nfts@, id) matches Some(n2) && n2.id == id
            && n2.owner@ == recipient && n2.approvals@.len() == 0
            && n2.token_uri == n.token_uri
        &&& n.owner@ != recipient ==> owned_ids(post.nfts@, n.owner@).len()
            == owned_ids(pre.nfts@, n.owner@).len() - 1
            && owned_ids(post.nfts@, recipient).len()
                == owned_ids(pre.nfts@, recipient).len() + 1
        &&& n.owner@ == recipient ==> forall|o: Seq<char>|
            owned_ids(post.nfts@, o) == owned_ids(pre.nfts@, o)
        &&& forall|o: Seq<char>| o != n.owner@ && o != recipient
            ==> owned_ids(post.nfts@, o) == owned_ids(pre.nfts@, o)
    }
    &&& post.recycled_nft_ids@ == pre.recycled_nft_ids@
    &&& post.current_nft_supply == pre.current_nft_supply
    &&& post.max_nft_supply == pre.max_nft_supply
    &&& forall|x: u128| nft_exists(post.nfts@, x) == nft_exists(pre.nfts@, x)
    &&& forall|x: u128| x != id
        ==> spec_find_nft(post.nfts@, x) == spec_find_nft(pre.nfts@, x)
}

/// The registry after an operation that may touch only the item with the
/// given id, without moving it: pools, counters, every other item, and the
/// whole owner index are as before.
pub open spec fn nft_unchanged_except(pre: NftRegistry, post: NftRegistry, id: u128) -> bool {
    &&& post.recycled_nft_ids@ == pre.recycled_nft_ids@
    &&& post.current_nft_supply == pre.current_nft_supply
    &&& post.max_nft_supply == pre.max_nft_supply
    &&& forall|x: u128| nft_exists(post.nfts@, x) == nft_exists(pre.nfts@, x)
    &&& forall|x: u128| x != id
        ==> spec_find_nft(post.nfts@, x) == spec_find_nft(pre.nfts@, x)
    &&& forall|o: Seq<char>| owned_ids(post.nfts@, o) == owned_ids(pre.nfts@, o)
}

/// How replacing the approval list of one item changes the registry: only
/// that list changes.
pub open spec fn approvals_replaced_ok(
    pre: NftRegistry,
    post: NftRegistry,
    id: u128,
    new_approvals: Seq<NftApproval>,
) -> bool {
    &&& spec_find_nft(pre.nfts@, id) matches Some(n) && {
        &&& spec_find_nft(post.nfts@, id) matches Some(n2) && n2.id == id
            && n2.owner@ == n.owner@ && n2.owner == n.owner
            && n2.approvals@ == new_approvals && n2.token_uri == n.token_uri
    }
    &&& nft_unchanged_except(pre, post, id)
}

impl NftRegistry {
    /// Burn the item with the given id, moving the id to the tail of the
    /// recycled pool. Fails, and changes nothing, when no such item exists.
    /// Authorization is the caller's concern.
    pub fn burn_nft_id(&mut self, id: u128) -> (r: Result<(), ContractError>)
        requires
            old(self).wf(),
        ensures
            final(self).wf(),
            match r {
                Ok(()) => nft_exists(old(self).nfts@, id)
                    && burn_id_ok(*old(self), *final(self), id),
                Err(e) => !nft_exists(old(self).nfts@, id) && *final(self) == *old(self)
                    && e == (ContractError::NftTokenIdNotFound { nft_token_id: id }),
            },
    {
        let ghost pre = *self;
        let j = match self.find_index(id) {
            Some(j) => j,
            None => {
                return Err(ContractError::NftTokenIdNotFound { nft_token_id: id });
            },
        };
        let ghost a = self.nfts@.take(j as int);
        let ghost m = self.nfts@[j as int];
        let ghost b = self.nfts@.skip(j as int + 1);
        proof {
            assert(self.nfts@ =~= a + seq![m] + b);
            assert(spec_find_nft(pre.nfts@, id) == Some(m));
        }
        self.nfts.remove(j);
        self.recycled_nft_ids.push(id);
        self.current_nft_supply = self.current_nft_supply - 1;
        proof {
            assert(self.nfts@ =~= a + b);
            lemma_burn_remove_owner_effects(a, m, b);
            assert(burn_id_ok(pre, *self, id));
            assert forall|i: int| 0 <= i < self.recycled_nft_ids@.len() implies
                1 <= #[trigger] self.recycled_nft_ids@[i] <= self.watermark()
                && !nft_exists(self.nfts@, self.recycled_nft_ids@[i]) by {
                if i < pre.recycled_nft_ids@.len() {
                    assert(pre.recycled_nft_ids@[i] == self.recycled_nft_ids@[i]);
                } else {
                    assert(self.recycled_nft_ids@[i] == id);
                }
            }
            assert(self.wf());
        }
        Ok(())
    }

    /// Move the item with the given id to `recipient`, clearing all of its
    /// approvals. Fails, and changes nothing, when no such item exists.
    /// Authorization is the caller's concern.
    pub fn transfer_nft_to(&mut self, id: u128, recipient: &String) -> (r: Result<
        (),
        ContractError,
    >)
        requires
            old(self).wf(),
        ensures
            final(self).wf(),
            match r {
                Ok(()) => nft_exists(old(self).nfts@, id)
                    && transfer_ok(*old(self), *final(self), id, recipient@),
                Err(e) => !nft_exists(old(self).nfts@, id) && *final(self) == *old(self)
                    && e == (ContractError::NftTokenIdNotFound { nft_token_id: id }),
            },
    {
        let ghost pre = *self;
        let j = match self.find_index(id) {
            Some(j) => j,
            None => {
                return Err(ContractError::NftTokenIdNotFound { nft_token_id: id });
            },
        };
        let ghost a = self.nfts@.take(j as int);
        let ghost m = self.nfts@[j as int];
        let ghost b = self.nfts@.skip(j as int + 1);
        proof {
            assert(self.nfts@ =~= a + seq![m] + b);
            assert(spec_find_nft(pre.nfts@, id) == Some(m));
        }
        let mut nft = self.nfts.remove(j);
        nft.owner = recipient.clone();
        nft.approvals = Vec::new();
        let ghost m2 = nft;
        self.nfts.insert(j, nft);
        proof {
            assert(self.nfts@ =~= a + seq![m2] + b);
            lemma_replace_effects(a, m, m2, b);
            assert(transfer_ok(pre, *self, id, recipient@));
            assert forall|i: int| 0 <= i < self.recycled_nft_ids@.len() implies
                !nft_exists(self.nfts@, #[trigger] self.recycled_nft_ids@[i]) by {
                assert(!nft_exists(pre.nfts@, self.recycled_nft_ids@[i]));
            }
            assert(self.wf());
        }
        Ok(())
    }

    /// Replace the approval list of the item with the given id. Fails, and
    /// changes nothing, when no such item exists. Authorization and the
    /// shape of the new list are the caller's concern.
    pub fn replace_nft_approvals(&mut self, id: u128, new_approvals: Vec<NftApproval>) -> (r:
        Result<(), ContractError>)
        requires
            old(self).wf(),
            distinct_spenders(new_approvals@),
        ensures
            final(self).wf(),
            match r {
                Ok(()) => nft_exists(old(self).nfts@, id)
                    && approvals_replaced_ok(*old(self), *final(self), id, new_approvals@),
                Err(e) => !nft_exists(old(self).nfts@, id) && *final(self) == *old(self)
                    && e == (ContractError::NftTokenIdNotFound { nft_token_id: id }),
            },
    {
        let ghost pre = *self;
        let j = match self.find_index(id) {
            Some(j) => j,
            None => {
                return Err(ContractError::NftTokenIdNotFound { nft_token_id: id });
            },
        };
        let ghost a = self.nfts@.take(j as int);
        let ghost m = self.nfts@[j as int];
        let ghost b = self.nfts@.skip(j as int + 1);
        proof {
            assert(self.nfts@ =~= a + seq![m] + b);
            assert(spec_find_nft(pre.nfts@, id) == Some(m));
        }
        let mut nft = self.nfts.remove(j);
        nft.approvals = new_approvals;
        let ghost m2 = nft;
        self.nfts.insert(j, nft);
        proof {
            assert(self.nfts@ =~= a + seq![m2] + b);
            lemma_replace_effects(a, m, m2, b);
            assert(approvals_replaced_ok(pre, *self, id, new_approvals@));
            assert forall|i: int| 0 <= i < self.recycled_nft_ids@.len() implies
                !nft_exists(self.nfts@, #[trigger] self.recycled_nft_ids@[i]) by {
                assert(!nft_exists(pre.nfts@, self.recycled_nft_ids@[i]));
            }
            assert(self.wf());
        }
        Ok(())
    }
}

/// Effects of removing one element out of a sorted registry, counted on the
/// removed element's owner.
proof fn lemma_burn_remove_owner_effects(a: Seq<Nft>, m: Nft, b: Seq<Nft>)
    requires
        forall|k: int| 0 <= k < a.len() ==> a[k].id < m.id,
        forall|k: int| 0 <= k < b.len() ==> m.id < b[k].id,
    ensures
        nft_exists(a + b, m.id) == false,
        forall|x: u128| x != m.id
            ==> spec_find_nft(a + b, x) == spec_find_nft(a + seq![m] + b, x),
        forall|x: u128| nft_exists(a + b, x) == (nft_exists(a + seq![m] + b, x) && x != m.id),
        owned_ids(a + b, m.owner@).len() == owned_ids(a + seq![m] + b, m.owner@).len() - 1,
        forall|o: Seq<char>| o != m.owner@
            ==> owned_ids(a + b, o) == owned_ids(a + seq![m] + b, o),
{
    let s1 = a + seq![m] + b;
    let s0 = a + b;
    lemma_find_nft_props(a, m.id);
    lemma_find_nft_props(b, m.id);
    lemma_find_nft_concat(a, b, m.id);
    assert forall|x: u128| x != m.id implies
        spec_find_nft(s0, x) == spec_find_nft(s1, x) by {
        lemma_find_nft_three(a, m, b, x);
        lemma_find_nft_concat(a, b, x);
    }
    assert forall|x: u128| nft_exists(s0, x) == (nft_exists(s1, x) && x != m.id) by {
        lemma_find_nft_three(a, m, b, x);
        lemma_find_nft_concat(a, b, x);
    }
    lemma_owned_ids_three(a, m, b, m.owner@);
    lemma_owned_ids_concat(a, b, m.owner@);
    assert forall|o: Seq<char>| o != m.owner@ implies
        owned_ids(s0, o) == owned_ids(s1, o) by {
        lemma_owned_ids_three(a, m, b, o);
        lemma_owned_ids_concat(a, b, o);
        assert(owned_ids(s1, o) =~= owned_ids(a, o) + owned_ids(b, o));
    }
}

/// Effects of inserting a fresh item between the elements smaller and the
/// elements larger than its id.
proof fn lemma_mint_insert_effects(
    a: Seq<Nft>,
    b: Seq<Nft>,
    nft: Nft,
    pre: Seq<Nft>,
    id: u128,
    owner: Seq<char>,
    base_uri: Seq<char>,
)
    requires
        pre == a + b,
        nft.id == id,
        nft.owner@ == owner,
        forall|k: int| 0 <= k < a.len() ==> a[k].id < id,
        forall|k: int| 0 <= k < b.len() ==> id < b[k].id,
    ensures
        spec_find_nft(a + seq![nft] + b, id) == Some(nft),
        forall|x: u128| x != id
            ==> spec_find_nft(a + seq![nft] + b, x) == spec_find_nft(pre, x),
        forall|x: u128| nft_exists(a + seq![nft] + b, x) == (nft_exists(pre, x) || x == id),
        owned_ids(a + seq![nft] + b, owner).len() == owned_ids(pre, owner).len() + 1,
        forall|o: Seq<char>| o != owner
            ==> owned_ids(a + seq![nft] + b, o) == owned_ids(pre, o),
        !nft_exists(pre, id),
{
    let s1 = a + seq![nft] + b;
    lemma_find_nft_props(a, id);
    assert(spec_find_nft(a, id) is None);
    lemma_find_nft_three(a, nft, b, id);
    assert(spec_find_nft(s1, id) == Some(nft));
    assert forall|x: u128| x != id implies
        spec_find_nft(s1, x) == spec_find_nft(pre, x) by {
        lemma_find_nft_three(a, nft, b, x);
        lemma_find_nft_concat(a, b, x);
    }
    lemma_find_nft_props(b, id);
    lemma_find_nft_concat(a, b, id);
    assert(!nft_exists(pre, id));
    assert forall|x: u128| nft_exists(s1, x) == (nft_exists(pre, x) || x == id) by {
        lemma_find_nft_three(a, nft, b, x);
        lemma_find_nft_concat(a, b, x);
    }
    lemma_owned_ids_three(a, nft, b, owner);
    lemma_owned_ids_concat(a, b, owner);
    assert forall|o: Seq<char>| o != owner implies
        owned_ids(s1, o) == owned_ids(pre, o) by {
        lemma_owned_ids_three(a, nft, b, o);
        lemma_owned_ids_concat(a, b, o);
        assert(owned_ids(s1, o) =~= owned_ids(a, o) + owned_ids(b, o));
    }
}

} // verus!
