//! Named mint groups: each group is a time-boxed minting policy with a
//! price, a per-call cap, and an optional Merkle allow-list root.
//!
//! Groups are created at setup, one per name, and never mutated afterward.

use vstd::prelude::*;
use crate::error::ContractError;

verus! {

/// One minting policy. Times are in seconds; amounts and prices are in the
/// fungible base denom's smallest units.
pub struct MintGroup {
    /// Unique name of the group.
    pub name: String,
    /// Committed root of the allow-list, if the group has one.
    pub merkle_root: Option<Vec<u8>>,
    /// Per-call cap on the requested fungible amount.
    pub max_base_denom_amount_per_mint: u128,
    /// Price in fee-denom units per base-denom unit minted.
    pub price_per_base_denom: u128,
    /// First second at which the group accepts mints.
    pub start_time: u64,
    /// Last second at which the group accepts mints.
    pub end_time: u64,
}

/// Whether the table holds a group with the given name.
pub open spec fn group_exists(s: Seq<MintGroup>, name: Seq<char>) -> bool {
    exists|i: int| 0 <= i < s.len() && (#[trigger] s[i]).name@ == name
}

/// The group with the given name; meaningful only when it exists and the
/// table holds one group per name.
pub open spec fn spec_group_at(s: Seq<MintGroup>, name: Seq<char>) -> MintGroup {
    let i = choose|i: int| 0 <= i < s.len() && (#[trigger] s[i]).name@ == name;
    s[i]
}

/// At most one group per name.
pub open spec fn groups_distinct(s: Seq<MintGroup>) -> bool {
    forall|i: int, j: int| 0 <= i < j < s.len()
        ==> (#[trigger] s[i]).name@ != (#[trigger] s[j]).name@
}

/// In a one-per-name table, the group found at an index is the group its
/// name maps to.
pub proof fn lemma_group_at_index(s: Seq<MintGroup>, i: int)
    requires
        groups_distinct(s),
        0 <= i < s.len(),
    ensures
        group_exists(s, s[i].name@),
        spec_group_at(s, s[i].name@) == s[i],
{
    assert(group_exists(s, s[i].name@));
    let k = choose|k: int| 0 <= k < s.len() && (#[trigger] s[k]).name@ == s[i].name@;
    assert(k == i);
}

/// The table of mint groups.
pub struct MintGroups {
    pub groups: Vec<MintGroup>,
}

impl MintGroups {
    /// Well-formedness: unique names, and every group's window is ordered.
    pub open spec fn wf(self) -> bool {
        &&& groups_distinct(self.groups@)
        &&& forall|i: int| 0 <= i < self.groups@.len()
            ==> (#[trigger] self.groups@[i]).start_time <= self.groups@[i].end_time
    }

    /// An empty table.
    pub fn new() -> (r: MintGroups)
        ensures
            r.wf(),
            r.groups@.len() == 0,
    {
        MintGroups { groups: Vec::new() }
    }

    /// Register a group under its name at setup time. A second group with
    /// the name of an earlier one is rejected, and the table unchanged.
    pub fn add_mint_group(&mut self, group: MintGroup) -> (r: Result<(), ContractError>)
        requires
            old(self).wf(),
            group.start_time <= group.end_time,
        ensures
            final(self).wf(),
            match r {
                Ok(()) => !group_exists(old(self).groups@, group.name@)
                    && group_exists(final(self).groups@, group.name@)
                    && spec_group_at(final(self).groups@, group.name@) == group
                    && (forall|nm: Seq<char>| nm != group.name@
                        ==> #[trigger] group_exists(final(self).groups@, nm)
                            == group_exists(old(self).groups@, nm)
                            && (group_exists(old(self).groups@, nm)
                                ==> spec_group_at(final(self).groups@, nm)
                                    == spec_group_at(old(self).groups@, nm))),
                Err(e) => group_exists(old(self).groups@, group.name@)
                    && *final(self) == *old(self)
                    && (e matches ContractError::DuplicateMintGroup { name }
                        && name@ == group.name@),
            },
    {
        let n = self.groups.len();
        for j in 0..n
            invariant
                n == self.groups@.len(),
                self.wf(),
                forall|k: int| 0 <= k < j
                    ==> (#[trigger] self.groups@[k]).name@ != group.name@,
        {
            if self.groups[j].name == group.name {
                proof {
                    assert(group_exists(self.groups@, group.name@));
                }
                return Err(ContractError::DuplicateMintGroup {
                    name: group.name.clone(),
                });
            }
        }
        let ghost mid = self.groups@;
        let ghost g = group;
        self.groups.push(group);
        proof {
            let s = self.groups@;
            let last = mid.len() as int;
            assert(s[last] == g);
            assert(forall|k: int| 0 <= k < mid.len() ==> s[k] == mid[k]);
            assert(!group_exists(mid, g.name@));
            assert forall|i: int, j: int| 0 <= i < j < s.len() implies
                (#[trigger] s[i]).name@ != (#[trigger] s[j]).name@ by {
                if j == last && s[i].name@ == g.name@ {
                    assert(group_exists(mid, g.name@));
                }
            }
            lemma_group_at_index(s, last);
            assert forall|nm: Seq<char>| nm != g.name@ implies
                #[trigger] group_exists(s, nm) == group_exists(mid, nm)
                && (group_exists(mid, nm)
                    ==> spec_group_at(s, nm) == spec_group_at(mid, nm)) by {
                if group_exists(mid, nm) {
                    let w = choose|w: int| 0 <= w < mid.len()
                        && (#[trigger] mid[w]).name@ == nm;
                    assert(s[w].name@ == nm);
                    lemma_group_at_index(s, w);
                    lemma_group_at_index(mid, w);
                }
                if group_exists(s, nm) {
                    let w = choose|w: int| 0 <= w < s.len()
                        && (#[trigger] s[w]).name@ == nm;
                    assert(w != last);
                    assert(mid[w].name@ == nm);
                }
            }
        }
        Ok(())
    }

    /// Position of the group with the given name, if it exists.
    pub fn find_group(&self, name: &String) -> (r: Option<usize>)
        requires
            self.wf(),
        ensures
            match r {
                Some(i) => i < self.groups@.len() && self.groups@[i as int].name@ == name@
                    && group_exists(self.groups@, name@)
                    && spec_group_at(self.groups@, name@) == self.groups@[i as int],
                None => !group_exists(self.groups@, name@),
            },
    {
        let n = self.groups.len();
        for j in 0..n
            invariant
                n == self.groups@.len(),
                self.wf(),
                forall|k: int| 0 <= k < j
                    ==> (#[trigger] self.groups@[k]).name@ != name@,
        {
            if self.groups[j].name == *name {
                proof {
                    lemma_group_at_index(self.groups@, j as int);
                }
                return Some(j);
            }
        }
        None
    }
}

} // verus!
