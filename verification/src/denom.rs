//! Denom naming helpers.
//!
//! A collection's display denom is derived from a subdenom chosen at
//! setup: the base (smallest-unit) subdenom prefixes it with `u`, and the
//! full denoms live under the token factory path `factory/<addr>/<sub>`.

use vstd::prelude::*;
use crate::error::ContractError;

verus! {

/// The full factory denom for a subdenom under a contract address.
pub open spec fn spec_factory_denom(addr: Seq<char>, sub: Seq<char>) -> Seq<char> {
    "factory/"@ + addr + seq!['/'] + sub
}

/// The trailing path segment: everything after the last slash, or the
/// whole string when it has no slash.
pub open spec fn spec_last_segment(s: Seq<char>) -> Seq<char>
    decreases s.len(),
{
    if s.len() == 0 {
        Seq::empty()
    } else if s.last() == '/' {
        Seq::empty()
    } else {
        spec_last_segment(s.drop_last()) + seq![s.last()]
    }
}

/// The base subdenom of a subdenom: the same name with a `u` prefix.
pub fn convert_subdenom_to_base_subdenom(subdenom: &str) -> (r: String)
    ensures
        r@ == seq!['u'] + subdenom@,
{
    proof {
        reveal_strlit("u");
    }
    let mut r = String::from_str("u");
    r.append(subdenom);
    proof {
        assert(r@ =~= seq!['u'] + subdenom@);
    }
    r
}

/// The full display denom of a subdenom under the contract address.
pub fn convert_subdenom_to_denom(subdenom: &str, contract_addr: &String) -> (r: String)
    ensures
        r@ == spec_factory_denom(contract_addr@, subdenom@),
{
    proof {
        reveal_strlit("factory/");
        reveal_strlit("/");
    }
    let mut r = String::from_str("factory/");
    r.append(contract_addr.as_str());
    r.append("/");
    r.append(subdenom);
    proof {
        assert(r@ =~= "factory/"@ + contract_addr@ + seq!['/'] + subdenom@);
    }
    r
}

/// The full base denom of a subdenom under the contract address.
pub fn convert_subdenom_to_base_denom(subdenom: &str, contract_addr: &String) -> (r: String)
    ensures
        r@ == spec_factory_denom(contract_addr@, seq!['u'] + subdenom@),
{
    let base_subdenom = convert_subdenom_to_base_subdenom(subdenom);
    convert_subdenom_to_denom(base_subdenom.as_str(), contract_addr)
}

/// The base subdenom of a full base denom: its trailing path segment.
pub fn convert_base_denom_to_base_subdenom(base_denom: &String) -> (r: Result<
    String,
    ContractError,
>)
    ensures
        r matches Ok(seg) && seg@ == spec_last_segment(base_denom@),
{
    let s = base_denom.as_str();
    let len = s.unicode_len();
    let mut cut: usize = 0;
    for i in 0..len
        invariant
            cut <= i,
            len == s@.len(),
            spec_last_segment(s@.take(i as int)) == s@.subrange(cut as int, i as int),
    {
        let c = s.get_char(i);
        proof {
            assert(s@.take(i + 1).drop_last() =~= s@.take(i as int));
            assert(s@.take(i + 1).last() == s@[i as int]);
        }
        if c == '/' {
            cut = i + 1;
            proof {
                assert(spec_last_segment(s@.take(i + 1)) =~= s@.subrange(
                    cut as int,
                    i + 1,
                ));
            }
        } else {
            proof {
                assert(spec_last_segment(s@.take(i + 1)) =~= s@.subrange(cut as int, i + 1));
            }
        }
    }
    proof {
        assert(s@.take(len as int) =~= s@);
    }
    let seg = s.substring_char(cut, len);
    Ok(seg.to_owned())
}

/// The subdenom of a base subdenom: the same name with the leading `u`
/// removed.
pub fn convert_base_subdenom_to_subdenom(base_subdenom: &str) -> (r: String)
    requires
        base_subdenom@.len() >= 1,
    ensures
        r@ == base_subdenom@.skip(1),
{
    let len = base_subdenom.unicode_len();
    let tail = base_subdenom.substring_char(1, len);
    proof {
        assert(base_subdenom@.subrange(1, base_subdenom@.len() as int)
            =~= base_subdenom@.skip(1));
    }
    tail.to_owned()
}

} // verus!
