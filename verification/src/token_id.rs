//! Decimal rendering and parsing of item ids.
//!
//! Item ids travel as decimal strings at the interface; internally they are
//! 128-bit unsigned integers. Rendering and parsing are exact inverses on
//! the ids the registry can hold.

use vstd::prelude::*;
use crate::error::ContractError;

verus! {

/// The decimal digit character for a value below ten.
pub open spec fn spec_digit_char(d: int) -> char {
    if d == 0 { '0' }
    else if d == 1 { '1' }
    else if d == 2 { '2' }
    else if d == 3 { '3' }
    else if d == 4 { '4' }
    else if d == 5 { '5' }
    else if d == 6 { '6' }
    else if d == 7 { '7' }
    else if d == 8 { '8' }
    else { '9' }
}

/// The decimal digit string of a nonnegative integer, most significant
/// digit first, without leading zeros (except for zero itself).
pub open spec fn spec_dec_digits(n: int) -> Seq<char>
    recommends
        n >= 0,
    decreases n,
{
    if n < 10 {
        seq![spec_digit_char(n)]
    } else {
        spec_dec_digits(n / 10) + seq![spec_digit_char(n % 10)]
    }
}

/// Whether a character is a decimal digit.
pub open spec fn spec_is_dec_digit(c: char) -> bool {
    48 <= c as int <= 57
}

/// The numeric value of a decimal digit character.
pub open spec fn spec_dec_digit_val(c: char) -> int {
    c as int - 48
}

/// Whether every character of the sequence is a decimal digit.
pub open spec fn spec_all_dec_digits(s: Seq<char>) -> bool {
    forall|i: int| 0 <= i < s.len() ==> spec_is_dec_digit(#[trigger] s[i])
}

/// The integer a digit sequence denotes, most significant digit first.
pub open spec fn spec_dec_val(s: Seq<char>) -> int
    decreases s.len(),
{
    if s.len() == 0 {
        0
    } else {
        spec_dec_val(s.drop_last()) * 10 + spec_dec_digit_val(s.last())
    }
}

/// What parsing a token id string yields: the denoted value, if the string
/// is a nonempty run of decimal digits whose value fits in 128 bits.
pub open spec fn spec_parse_u128(s: Seq<char>) -> Option<u128> {
    if s.len() > 0 && spec_all_dec_digits(s) && spec_dec_val(s) <= u128::MAX {
        Some(spec_dec_val(s) as u128)
    } else {
        None
    }
}

/// A digit sequence denotes a nonnegative integer.
pub proof fn lemma_dec_val_nonneg(s: Seq<char>)
    requires
        spec_all_dec_digits(s),
    ensures
        spec_dec_val(s) >= 0,
    decreases s.len(),
{
    if s.len() > 0 {
        assert(forall|i: int| 0 <= i < s.drop_last().len() ==> s.drop_last()[i] == s[i]);
        lemma_dec_val_nonneg(s.drop_last());
        assert(spec_dec_val(s.drop_last()) * 10 >= 0) by (nonlinear_arith)
            requires spec_dec_val(s.drop_last()) >= 0;
    }
}

/// Extending a digit run to the right never shrinks its value.
pub proof fn lemma_dec_val_prefix(s: Seq<char>, k: int)
    requires
        spec_all_dec_digits(s),
        0 <= k <= s.len(),
    ensures
        spec_dec_val(s.take(k)) <= spec_dec_val(s),
    decreases s.len() - k,
{
    if k == s.len() {
        assert(s.take(k) =~= s);
    } else {
        assert(s.take(k + 1).drop_last() =~= s.take(k));
        assert(s.take(k + 1).last() == s[k]);
        assert(forall|i: int| 0 <= i < s.take(k).len() ==> s.take(k)[i] == s[i]);
        lemma_dec_val_nonneg(s.take(k));
        let v = spec_dec_val(s.take(k));
        assert(v * 10 >= v) by (nonlinear_arith)
            requires v >= 0;
        assert(spec_dec_val(s.take(k + 1)) >= spec_dec_val(s.take(k)));
        lemma_dec_val_prefix(s, k + 1);
    }
}

/// A rendered id is a nonempty run of digits denoting the rendered value.
pub proof fn lemma_dec_digits_props(n: int)
    requires
        n >= 0,
    ensures
        spec_all_dec_digits(spec_dec_digits(n)),
        spec_dec_val(spec_dec_digits(n)) == n,
        spec_dec_digits(n).len() >= 1,
    decreases n,
{
    if n < 10 {
        let d = spec_dec_digits(n);
        assert(d =~= seq![spec_digit_char(n)]);
        assert(d.drop_last() =~= Seq::<char>::empty());
        assert(spec_dec_val(Seq::<char>::empty()) == 0);
        assert(d.last() == spec_digit_char(n));
        assert(spec_dec_val(d) == spec_dec_val(d.drop_last()) * 10 + spec_dec_digit_val(
            d.last(),
        ));
        assert(spec_dec_val(d) == spec_dec_digit_val(spec_digit_char(n)));
        assert(spec_dec_digit_val(spec_digit_char(n)) == n);
        assert(spec_is_dec_digit(d[0]));
    } else {
        lemma_dec_digits_props(n / 10);
        let p = spec_dec_digits(n / 10);
        let d = spec_dec_digits(n);
        assert(d == p + seq![spec_digit_char(n % 10)]);
        assert(d.drop_last() =~= p);
        assert(d.last() == spec_digit_char(n % 10));
        assert(spec_dec_digit_val(spec_digit_char(n % 10)) == n % 10);
        assert(spec_dec_val(d) == spec_dec_val(p) * 10 + n % 10);
        vstd::arithmetic::div_mod::lemma_fundamental_div_mod(n, 10);
        assert(forall|i: int| 0 <= i < p.len() ==> d[i] == p[i]);
        assert(spec_is_dec_digit(d[d.len() - 1]));
    }
}

/// Law: rendering an id and parsing the result gives the id back.
pub proof fn lemma_token_id_round_trip(n: u128)
    ensures
        spec_parse_u128(spec_dec_digits(n as int)) == Some(n),
{
    lemma_dec_digits_props(n as int);
}

/// The one-character string for a decimal digit.
fn dec_digit_str(d: u128) -> (r: &'static str)
    requires
        d < 10,
    ensures
        r@ =~= seq![spec_digit_char(d as int)],
{
    match d {
        0 => {
            proof { reveal_strlit("0"); }
            "0"
        },
        1 => {
            proof { reveal_strlit("1"); }
            "1"
        },
        2 => {
            proof { reveal_strlit("2"); }
            "2"
        },
        3 => {
            proof { reveal_strlit("3"); }
            "3"
        },
        4 => {
            proof { reveal_strlit("4"); }
            "4"
        },
        5 => {
            proof { reveal_strlit("5"); }
            "5"
        },
        6 => {
            proof { reveal_strlit("6"); }
            "6"
        },
        7 => {
            proof { reveal_strlit("7"); }
            "7"
        },
        8 => {
            proof { reveal_strlit("8"); }
            "8"
        },
        _ => {
            proof { reveal_strlit("9"); }
            "9"
        },
    }
}

/// Render an id as its decimal digit string.
pub fn u128_to_dec_string(n: u128) -> (s: String)
    ensures
        s@ == spec_dec_digits(n as int),
    decreases n,
{
    if n < 10 {
        dec_digit_str(n).to_owned()
    } else {
        let mut s = u128_to_dec_string(n / 10);
        s.append(dec_digit_str(n % 10));
        proof {
            assert(s@ =~= spec_dec_digits(n as int / 10) + seq![spec_digit_char(n as int % 10)]);
        }
        s
    }
}

/// Parse a token id given as a decimal string.
///
/// Returns the denoted value exactly when the string is a nonempty run of
/// decimal digits that fits in 128 bits; any other string is rejected.
pub fn parse_token_id_from_string_to_uint128(token_id: &String) -> (r: Result<
    u128,
    ContractError,
>)
    ensures
        match r {
            Ok(v) => spec_parse_u128(token_id@) == Some(v),
            Err(e) => spec_parse_u128(token_id@) is None
                && (e matches ContractError::CannotParseTokenIdFromString { value }
                    && value@ == token_id@),
        },
{
    let s = token_id.as_str();
    let len = s.unicode_len();
    if len == 0 {
        return Err(ContractError::CannotParseTokenIdFromString { value: token_id.clone() });
    }
    let mut val: u128 = 0;
    for j in 0..len
        invariant
            len == s@.len(),
            s@ == token_id@,
            spec_all_dec_digits(s@.take(j as int)),
            val == spec_dec_val(s@.take(j as int)),
    {
        let c = s.get_char(j);
        let cu = c as u32;
        proof {
            assert(s@.take(j + 1).drop_last() =~= s@.take(j as int));
            assert(s@.take(j + 1).last() == s@[j as int]);
            assert(forall|i: int| 0 <= i < s@.take(j as int).len()
                ==> s@.take(j as int)[i] == s@[i]);
        }
        if cu < 48 || cu > 57 {
            assert(!spec_is_dec_digit(s@[j as int]));
            return Err(ContractError::CannotParseTokenIdFromString {
                value: token_id.clone(),
            });
        }
        let d = (cu - 48) as u128;
        let scaled = match val.checked_mul(10) {
            Some(x) => x,
            None => {
                proof {
                    overflow_means_unparseable(s@, j as int, val, d as int);
                }
                return Err(ContractError::CannotParseTokenIdFromString {
                    value: token_id.clone(),
                });
            },
        };
        let next = match scaled.checked_add(d) {
            Some(x) => x,
            None => {
                proof {
                    overflow_means_unparseable(s@, j as int, val, d as int);
                }
                return Err(ContractError::CannotParseTokenIdFromString {
                    value: token_id.clone(),
                });
            },
        };
        val = next;
    }
    proof {
        assert(s@.take(len as int) =~= s@);
    }
    Ok(val)
}

/// If appending one more digit overflows 128 bits, no run of digits with
/// this prefix denotes a value that fits, so parsing must fail.
proof fn overflow_means_unparseable(s: Seq<char>, j: int, val: u128, d: int)
    requires
        0 <= j < s.len(),
        spec_all_dec_digits(s.take(j)),
        val == spec_dec_val(s.take(j)),
        spec_is_dec_digit(s[j]),
        d == spec_dec_digit_val(s[j]),
        val * 10 + d > u128::MAX,
    ensures
        spec_parse_u128(s) is None,
{
    assert(s.take(j + 1).drop_last() =~= s.take(j));
    assert(s.take(j + 1).last() == s[j]);
    assert(spec_dec_val(s.take(j + 1)) == val * 10 + d);
    if spec_all_dec_digits(s) {
        lemma_dec_val_prefix(s, j + 1);
        assert(spec_dec_val(s) > u128::MAX);
    }
}

} // verus!
