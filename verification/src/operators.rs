//! Owner-level operator grants: a grant gives the operator full send and
//! approve rights over all of the granting owner's current and future
//! items until the grant expires.
//!
//! Grants are keyed by the (owner, operator) pair; they persist across the
//! owner's item transfers.

use vstd::prelude::*;
use crate::expiration::{BlockInfo, Expiration};
use crate::error::ContractError;

verus! {

/// One blanket grant: `operator` controls all items of `owner` until
/// `expires`.
pub struct OperatorGrant {
    pub owner: String,
    pub operator: String,
    pub expires: Expiration,
}

/// Whether the table holds a grant for the (owner, operator) pair.
pub open spec fn grant_exists(s: Seq<OperatorGrant>, owner: Seq<char>, operator: Seq<char>) -> bool {
    exists|i: int| 0 <= i < s.len() && (#[trigger] s[i]).owner@ == owner
        && s[i].operator@ == operator
}

/// The expiry of the grant for the (owner, operator) pair; meaningful only
/// when the grant exists and the table holds one grant per pair.
pub open spec fn spec_grant_expiry(
    s: Seq<OperatorGrant>,
    owner: Seq<char>,
    operator: Seq<char>,
) -> Expiration {
    let i = choose|i: int| 0 <= i < s.len() && (#[trigger] s[i]).owner@ == owner
        && s[i].operator@ == operator;
    s[i].expires
}

/// At most one grant per (owner, operator) pair.
pub open spec fn grants_distinct(s: Seq<OperatorGrant>) -> bool {
    forall|i: int, j: int| 0 <= i < j < s.len()
        ==> !((#[trigger] s[i]).owner@ == (#[trigger] s[j]).owner@
            && s[i].operator@ == s[j].operator@)
}

/// The stored pairs of two tables agree outside one designated pair, with
/// equal expiries where both store a grant.
pub open spec fn grants_agree_outside(
    pre: Seq<OperatorGrant>,
    post: Seq<OperatorGrant>,
    owner: Seq<char>,
    operator: Seq<char>,
) -> bool {
    forall|ow: Seq<char>, op: Seq<char>| !(ow == owner && op == operator)
        ==> #[trigger] grant_exists(post, ow, op) == grant_exists(pre, ow, op)
            && (grant_exists(pre, ow, op)
                ==> spec_grant_expiry(post, ow, op) == spec_grant_expiry(pre, ow, op))
}

/// In a table with one grant per pair, every index that matches a pair
/// yields that pair's stored expiry.
proof fn lemma_grant_at_index(s: Seq<OperatorGrant>, i: int)
    requires
        grants_distinct(s),
        0 <= i < s.len(),
    ensures
        grant_exists(s, s[i].owner@, s[i].operator@),
        spec_grant_expiry(s, s[i].owner@, s[i].operator@) == s[i].expires,
{
    let ow = s[i].owner@;
    let op = s[i].operator@;
    assert(grant_exists(s, ow, op));
    let k = choose|k: int| 0 <= k < s.len() && (#[trigger] s[k]).owner@ == ow
        && s[k].operator@ == op;
    assert(k == i);
}

/// Appending a grant for a pair the table does not hold keeps the table
/// one-per-pair, stores exactly that grant for the pair, and leaves every
/// other pair as it was.
proof fn lemma_push_grant_effects(mid: Seq<OperatorGrant>, g: OperatorGrant)
    requires
        grants_distinct(mid),
        !grant_exists(mid, g.owner@, g.operator@),
    ensures
        grants_distinct(mid.push(g)),
        grant_exists(mid.push(g), g.owner@, g.operator@),
        spec_grant_expiry(mid.push(g), g.owner@, g.operator@) == g.expires,
        grants_agree_outside(mid, mid.push(g), g.owner@, g.operator@),
{
    let s = mid.push(g);
    let last = mid.len() as int;
    assert(s[last] == g);
    assert(forall|k: int| 0 <= k < mid.len() ==> s[k] == mid[k]);
    assert forall|i: int, j: int| 0 <= i < j < s.len() implies
        !((#[trigger] s[i]).owner@ == (#[trigger] s[j]).owner@
            && s[i].operator@ == s[j].operator@) by {
        if j == last {
            if s[i].owner@ == g.owner@ && s[i].operator@ == g.operator@ {
                assert(grant_exists(mid, g.owner@, g.operator@));
            }
        }
    }
    lemma_grant_at_index(s, last);
    assert forall|ow: Seq<char>, op: Seq<char>|
        !(ow == g.owner@ && op == g.operator@) implies
        #[trigger] grant_exists(s, ow, op) == grant_exists(mid, ow, op)
        && (grant_exists(mid, ow, op)
            ==> spec_grant_expiry(s, ow, op) == spec_grant_expiry(mid, ow, op)) by {
        if grant_exists(mid, ow, op) {
            let w = choose|w: int| 0 <= w < mid.len()
                && (#[trigger] mid[w]).owner@ == ow && mid[w].operator@ == op;
            assert(s[w].owner@ == ow && s[w].operator@ == op);
            lemma_grant_at_index(s, w);
            lemma_grant_at_index(mid, w);
        }
        if grant_exists(s, ow, op) {
            let w = choose|w: int| 0 <= w < s.len()
                && (#[trigger] s[w]).owner@ == ow && s[w].operator@ == op;
            assert(w != last);
            assert(mid[w].owner@ == ow && mid[w].operator@ == op);
        }
    }
}

/// Removing the one grant stored at an index keeps the table one-per-pair,
/// drops that grant's pair, and leaves every other pair as it was.
proof fn lemma_remove_grant_at(pre: Seq<OperatorGrant>, j: int, post: Seq<OperatorGrant>)
    requires
        grants_distinct(pre),
        0 <= j < pre.len(),
        post == pre.remove(j),
    ensures
        grants_distinct(post),
        !grant_exists(post, pre[j].owner@, pre[j].operator@),
        grants_agree_outside(pre, post, pre[j].owner@, pre[j].operator@),
{
    let ow0 = pre[j].owner@;
    let op0 = pre[j].operator@;
    assert(forall|k: int| 0 <= k < j ==> post[k] == pre[k]);
    assert(forall|k: int| j <= k < post.len() ==> post[k] == pre[k + 1]);
    assert forall|i: int, k: int| 0 <= i < k < post.len() implies
        !((#[trigger] post[i]).owner@ == (#[trigger] post[k]).owner@
            && post[i].operator@ == post[k].operator@) by {
        let pi = if i < j { i } else { i + 1 };
        let pk = if k < j { k } else { k + 1 };
        assert(post[i] == pre[pi] && post[k] == pre[pk]);
    }
    assert forall|k: int| 0 <= k < post.len() implies
        !((#[trigger] post[k]).owner@ == ow0 && post[k].operator@ == op0) by {
        let pk = if k < j { k } else { k + 1 };
        assert(post[k] == pre[pk]);
        assert(pk != j);
    }
    assert forall|ow: Seq<char>, op: Seq<char>| !(ow == ow0 && op == op0) implies
        #[trigger] grant_exists(post, ow, op) == grant_exists(pre, ow, op)
        && (grant_exists(pre, ow, op)
            ==> spec_grant_expiry(post, ow, op) == spec_grant_expiry(pre, ow, op)) by {
        if grant_exists(pre, ow, op) {
            let w = choose|w: int| 0 <= w < pre.len()
                && (#[trigger] pre[w]).owner@ == ow && pre[w].operator@ == op;
            assert(w != j);
            let k = if w < j { w } else { w - 1 };
            assert(post[k] == pre[w]);
            lemma_grant_at_index(post, k);
            lemma_grant_at_index(pre, w);
        }
        if grant_exists(post, ow, op) {
            let k = choose|k: int| 0 <= k < post.len()
                && (#[trigger] post[k]).owner@ == ow && post[k].operator@ == op;
            let pk = if k < j { k } else { k + 1 };
            assert(post[k] == pre[pk]);
            assert(grant_exists(pre, ow, op));
        }
    }
}

/// The table of operator grants.
pub struct NftOperators {
    pub grants: Vec<OperatorGrant>,
}

impl NftOperators {
    /// Well-formedness: at most one grant per (owner, operator) pair.
    pub open spec fn wf(self) -> bool {
        grants_distinct(self.grants@)
    }

    /// An empty grant table.
    pub fn new() -> (r: NftOperators)
        ensures
            r.wf(),
            r.grants@.len() == 0,
    {
        NftOperators { grants: Vec::new() }
    }

    /// The grant for the (owner, operator) pair, if one is stored.
    pub fn grant_of(&self, owner: &String, operator: &String) -> (r: Option<Expiration>)
        requires
            self.wf(),
        ensures
            r == if grant_exists(self.grants@, owner@, operator@) {
                Some(spec_grant_expiry(self.grants@, owner@, operator@))
            } else {
                None::<Expiration>
            },
    {
        let n = self.grants.len();
        for j in 0..n
            invariant
                n == self.grants@.len(),
                self.wf(),
                forall|k: int| 0 <= k < j
                    ==> !((#[trigger] self.grants@[k]).owner@ == owner@
                        && self.grants@[k].operator@ == operator@),
        {
            if self.grants[j].owner == *owner && self.grants[j].operator == *operator {
                proof {
                    lemma_grant_at_index(self.grants@, j as int);
                }
                return Some(self.grants[j].expires);
            }
        }
        None
    }

    /// Store a grant from `sender` to `operator` with the resolved expiry,
    /// replacing any earlier grant for the pair. A grant that would already
    /// be expired as of `block` is rejected as invalid.
    pub fn approve_all_nft(
        &mut self,
        block: &BlockInfo,
        sender: &String,
        operator: &String,
        expires: Option<Expiration>,
    ) -> (r: Result<(), ContractError>)
        requires
            old(self).wf(),
        ensures
            final(self).wf(),
            ({
                let resolved = match expires {
                    Some(e) => e,
                    None => Expiration::Never,
                };
                match r {
                    Ok(()) => !resolved.spec_is_expired(*block)
                        && grant_exists(final(self).grants@, sender@, operator@)
                        && spec_grant_expiry(final(self).grants@, sender@, operator@)
                            == resolved
                        && grants_agree_outside(
                            old(self).grants@,
                            final(self).grants@,
                            sender@,
                            operator@,
                        ),
                    Err(e) => resolved.spec_is_expired(*block) && *final(self) == *old(self)
                        && e == ContractError::Expired,
                }
            }),
    {
        let resolved = match expires {
            Some(e) => e,
            None => Expiration::never(),
        };
        if resolved.is_expired(block) {
            return Err(ContractError::Expired);
        }
        let ghost pre = self.grants@;
        self.remove_grant(sender, operator);
        let ghost mid = self.grants@;
        let g = OperatorGrant {
            owner: sender.clone(),
            operator: operator.clone(),
            expires: resolved,
        };
        proof {
            assert(g.owner@ == sender@ && g.operator@ == operator@);
        }
        self.grants.push(g);
        proof {
            lemma_push_grant_effects(mid, g);
            assert(self.grants@ == mid.push(g));
        }
        Ok(())
    }

    /// Drop the grant from `sender` to `operator`. Dropping a grant that
    /// does not exist is a silent no-op.
    pub fn revoke_all_nft(&mut self, sender: &String, operator: &String)
        requires
            old(self).wf(),
        ensures
            final(self).wf(),
            !grant_exists(final(self).grants@, sender@, operator@),
            grants_agree_outside(old(self).grants@, final(self).grants@, sender@, operator@),
    {
        self.remove_grant(sender, operator);
    }

    /// Remove the grant for the pair, keeping every other grant, in order.
    fn remove_grant(&mut self, owner: &String, operator: &String)
        requires
            old(self).wf(),
        ensures
            final(self).wf(),
            !grant_exists(final(self).grants@, owner@, operator@),
            grants_agree_outside(old(self).grants@, final(self).grants@, owner@, operator@),
    {
        let ghost pre = self.grants@;
        let n = self.grants.len();
        for j in 0..n
            invariant
                n == pre.len(),
                pre == self.grants@,
                old(self).wf(),
                pre == old(self).grants@,
                forall|k: int| 0 <= k < j
                    ==> !((#[trigger] pre[k]).owner@ == owner@
                        && pre[k].operator@ == operator@),
        {
            if self.grants[j].owner == *owner && self.grants[j].operator == *operator {
                self.grants.remove(j);
                proof {
                    lemma_remove_grant_at(pre, j as int, self.grants@);
                }
                return;
            }
        }
        proof {
            assert(!grant_exists(pre, owner@, operator@));
        }
    }
}

} // verus!
