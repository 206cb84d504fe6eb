//! Merkle allow-list proofs.
//!
//! A leaf is the Keccak-256 digest of an account address. A proof is the
//! list of sibling digests from the leaf to the root; at every step the two
//! digests are concatenated smaller-first (bytewise lexicographic order),
//! so the proof works for either sibling ordering, and hashed again. The
//! proof is valid when the final digest equals the committed root.

use vstd::prelude::*;
use sha3::Digest;

verus! {

/// The Keccak-256 digest of a byte string. The digest is a function of the
/// bytes alone; its value is not modeled.
pub uninterp spec fn keccak_of(data: Seq<u8>) -> Seq<u8>;

/// Relies on sha3::Keccak256 through the digest traits: the Keccak-256
/// digest of the input, always 32 bytes, depending on the input alone.
#[verifier::external_body]
fn keccak256(data: &Vec<u8>) -> (r: Vec<u8>)
    ensures
        r@ == keccak_of(data@),
        r@.len() == 32,
{
    sha3::Keccak256::digest(data.as_slice()).to_vec()
}

/// Bytewise lexicographic order on byte strings, as the standard library
/// orders byte slices: the first differing byte decides; a proper prefix
/// is smaller.
pub open spec fn lex_lt(a: Seq<u8>, b: Seq<u8>) -> bool
    decreases a.len(),
{
    if b.len() == 0 {
        false
    } else if a.len() == 0 {
        true
    } else if a[0] < b[0] {
        true
    } else if a[0] > b[0] {
        false
    } else {
        lex_lt(a.drop_first(), b.drop_first())
    }
}

/// Whether `a` comes strictly before `b` in bytewise lexicographic order.
pub fn bytes_lt(a: &Vec<u8>, b: &Vec<u8>) -> (r: bool)
    ensures
        r == lex_lt(a@, b@),
{
    let n = if a.len() < b.len() {
        a.len()
    } else {
        b.len()
    };
    proof {
        assert(a@.skip(0) =~= a@);
        assert(b@.skip(0) =~= b@);
    }
    for i in 0..n
        invariant
            n <= a@.len() && n <= b@.len(),
            n == if a@.len() < b@.len() { a@.len() } else { b@.len() },
            lex_lt(a@, b@) == lex_lt(a@.skip(i as int), b@.skip(i as int)),
    {
        proof {
            assert(a@.skip(i as int)[0] == a@[i as int]);
            assert(b@.skip(i as int)[0] == b@[i as int]);
            assert(a@.skip(i as int).drop_first() =~= a@.skip(i + 1));
            assert(b@.skip(i as int).drop_first() =~= b@.skip(i + 1));
        }
        if a[i] < b[i] {
            return true;
        }
        if a[i] > b[i] {
            return false;
        }
    }
    proof {
        if a@.len() < b@.len() {
            assert(b@.skip(n as int).len() > 0);
            assert(a@.skip(n as int).len() == 0);
        } else {
            assert(a@.skip(n as int).len() >= 0 && b@.skip(n as int).len() == 0);
        }
    }
    a.len() < b.len()
}

/// The two byte strings joined, one after the other.
pub fn concat_bytes(a: &Vec<u8>, b: &Vec<u8>) -> (r: Vec<u8>)
    ensures
        r@ == a@ + b@,
{
    let mut r: Vec<u8> = Vec::new();
    let na = a.len();
    for i in 0..na
        invariant
            na == a@.len(),
            r@ == a@.take(i as int),
    {
        r.push(a[i]);
        proof {
            assert(r@ =~= a@.take(i + 1));
        }
    }
    let nb = b.len();
    for i in 0..nb
        invariant
            nb == b@.len(),
            r@ == a@.take(a@.len() as int) + b@.take(i as int),
    {
        r.push(b[i]);
        proof {
            assert(r@ =~= a@.take(a@.len() as int) + b@.take(i + 1));
        }
    }
    proof {
        assert(a@.take(a@.len() as int) =~= a@);
        assert(b@.take(b@.len() as int) =~= b@);
        assert(r@ =~= a@ + b@);
    }
    r
}

/// Whether two byte strings hold the same bytes.
pub fn bytes_eq(a: &Vec<u8>, b: &Vec<u8>) -> (r: bool)
    ensures
        r == (a@ == b@),
{
    if a.len() != b.len() {
        return false;
    }
    let n = a.len();
    for i in 0..n
        invariant
            n == a@.len() && n == b@.len(),
            forall|k: int| 0 <= k < i ==> a@[k] == b@[k],
    {
        if a[i] != b[i] {
            return false;
        }
    }
    proof {
        assert(a@ =~= b@);
    }
    true
}

/// The views of a list of byte strings.
pub open spec fn bytes_views(s: Seq<Vec<u8>>) -> Seq<Seq<u8>> {
    s.map_values(|v: Vec<u8>| v@)
}

/// The digest obtained by folding a proof into a starting digest: at every
/// step the current digest and the sibling are joined smaller-first and
/// hashed again.
pub open spec fn spec_merkle_fold(current: Seq<u8>, proof_hashes: Seq<Seq<u8>>) -> Seq<u8>
    decreases proof_hashes.len(),
{
    if proof_hashes.len() == 0 {
        current
    } else {
        let sib = proof_hashes[0];
        let combined = if lex_lt(current, sib) {
            current + sib
        } else {
            sib + current
        };
        spec_merkle_fold(keccak_of(combined), proof_hashes.drop_first())
    }
}

/// The allow-list leaf committed for an account: the Keccak-256 digest of
/// the address in its byte encoding.
pub open spec fn spec_account_leaf(addr: Seq<char>) -> Seq<u8> {
    keccak_of(vstd::utf8::encode_utf8(addr))
}

/// The Keccak-256 digest of an account address, the allow-list leaf.
pub fn hash_account(addr: &String) -> (r: Vec<u8>)
    ensures
        r@ == spec_account_leaf(addr@),
        r@.len() == 32,
{
    let bytes = addr.as_str().as_bytes_vec();
    keccak256(&bytes)
}

/// Fold the proof into the leaf digest and compare against the root.
pub fn verify_merkle_proof(leaf_hash: &Vec<u8>, proof_hashes: &Vec<Vec<u8>>, root: &Vec<u8>) -> (r:
    bool)
    ensures
        r == (spec_merkle_fold(leaf_hash@, bytes_views(proof_hashes@)) == root@),
{
    let ghost views = bytes_views(proof_hashes@);
    let mut current: Vec<u8> = concat_bytes(leaf_hash, &Vec::new());
    proof {
        assert(current@ =~= leaf_hash@);
        assert(views.skip(0) =~= views);
    }
    let n = proof_hashes.len();
    for j in 0..n
        invariant
            n == proof_hashes@.len(),
            views == bytes_views(proof_hashes@),
            spec_merkle_fold(leaf_hash@, views) == spec_merkle_fold(
                current@,
                views.skip(j as int),
            ),
    {
        proof {
            assert(views.skip(j as int)[0] == proof_hashes@[j as int]@);
            assert(views.skip(j as int).drop_first() =~= views.skip(j + 1));
        }
        let sibling = &proof_hashes[j];
        let combined = if bytes_lt(&current, sibling) {
            concat_bytes(&current, sibling)
        } else {
            concat_bytes(sibling, &current)
        };
        current = keccak256(&combined);
    }
    proof {
        assert(views.skip(n as int).len() == 0);
        assert(spec_merkle_fold(current@, views.skip(n as int)) == current@);
    }
    bytes_eq(&current, root)
}

} // verus!
