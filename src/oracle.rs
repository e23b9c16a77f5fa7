//! The key derivation oracle: from a candidate key to the fingerprints
//! (addresses) it controls, and the test of a candidate against the targets.
use vstd::prelude::*;
use std::collections::HashSet;
use crate::key::U256;
use bitcoin::{Address, Network, PublicKey};
use bitcoin::secp256k1::{Secp256k1, SecretKey};

verus! {

/// A candidate outside the derivation's domain (zero, or not below the
/// curve order). Such a candidate is skipped.
#[derive(Clone, Copy, Debug, PartialEq, Eq, Structural)]
pub struct DerivationError;

/// The fingerprints derived from the key with value `key`, in the order the
/// oracle lists them; `None` where the key is outside the domain.
pub uninterp spec fn derived_fingerprints(key: nat) -> Option<Seq<Seq<char>>>;

/// The texts of a target set.
pub open spec fn target_texts(targets: Set<String>) -> Set<Seq<char>> {
    targets.map(|s: String| s@)
}

/// `fp` is a fingerprint of `key` and one of the targets.
pub open spec fn is_match(targets: Set<Seq<char>>, key: nat, fp: Seq<char>) -> bool {
    &&& derived_fingerprints(key) is Some
    &&& derived_fingerprints(key)->Some_0.contains(fp)
    &&& targets.contains(fp)
}

/// The first fingerprint of `fps`, in order, that is a target.
pub open spec fn first_target(targets: Set<Seq<char>>, fps: Seq<Seq<char>>) -> Option<Seq<char>>
    decreases fps.len(),
{
    if fps.len() == 0 {
        None
    } else if targets.contains(fps[0]) {
        Some(fps[0])
    } else {
        first_target(targets, fps.drop_first())
    }
}

/// What testing `key` against the targets finds.
pub open spec fn candidate_match(targets: Set<Seq<char>>, key: nat) -> Option<Seq<char>> {
    match derived_fingerprints(key) {
        Some(fps) => first_target(targets, fps),
        None => None,
    }
}

/// The order of the secp256k1 group: secret keys are the integers in `[1, n)`.
pub open spec fn curve_order() -> nat {
    0xFFFF_FFFF_FFFF_FFFF_FFFF_FFFF_FFFF_FFFE_BAAE_DCE6_AF48_A03B_BFD2_5E8C_D036_4141nat
}

/// Relies on bitcoin 0.31 and secp256k1 0.28: `SecretKey::from_slice` on
/// the key's 32 big-endian bytes, which fails exactly for zero and for keys
/// at or above the group order; then `PublicKey::from_secret_key`, and the
/// P2PKH addresses of the compressed and the uncompressed public key and the
/// P2WPKH address of the compressed one (which cannot fail for a compressed
/// key) on mainnet, as text. The result depends on the key alone.
#[verifier::external_body]
pub fn private_key_to_addresses(private_key: &U256) -> (r: Result<Vec<String>, DerivationError>)
    ensures
        match r {
            Ok(v) => derived_fingerprints(private_key@) == Some(v@.map_values(|s: String| s@)),
            Err(_) => derived_fingerprints(private_key@) is None,
        },
        r is Err <==> (private_key@ == 0 || private_key@ >= curve_order()),
        r matches Ok(v) ==> v@.len() == 3,
{
    let bytes = [private_key.hi.to_be_bytes(), private_key.lo.to_be_bytes()].concat();
    let secp = Secp256k1::new();
    let sk = SecretKey::from_slice(&bytes).map_err(|_| DerivationError)?;
    let pk = bitcoin::secp256k1::PublicKey::from_secret_key(&secp, &sk);
    let (c, u) = (PublicKey::new(pk), PublicKey::new_uncompressed(pk));
    let mut v = vec![Address::p2pkh(&c, Network::Bitcoin).to_string()];
    v.push(Address::p2pkh(&u, Network::Bitcoin).to_string());
    if let Ok(a) = Address::p2wpkh(&c, Network::Bitcoin) {
        v.push(a.to_string());
    }
    Ok(v)
}

/// Relies on `HashSet::contains` over `String`, whose `Eq` and `Hash` go by
/// the characters.
#[verifier::external_body]
fn contains_text(targets: &HashSet<String>, s: &String) -> (r: bool)
    ensures
        r == target_texts(targets@).contains(s@),
{
    targets.contains(s)
}

/// The first of `fingerprints`, in order, that is one of the targets.
pub fn first_target_of(fingerprints: &Vec<String>, targets: &HashSet<String>) -> (r: Option<String>)
    ensures
        match first_target(target_texts(targets@), fingerprints@.map_values(|s: String| s@)) {
            Some(fp) => r matches Some(s) && s@ == fp,
            None => r is None,
        },
{
    let ghost tt = target_texts(targets@);
    let ghost fps = fingerprints@.map_values(|s: String| s@);
    let mut i: usize = 0;
    assert(fps.subrange(0, fps.len() as int) =~= fps);
    while i < fingerprints.len()
        invariant
            fps == fingerprints@.map_values(|s: String| s@),
            tt == target_texts(targets@),
            i <= fingerprints@.len(),
            first_target(tt, fps) == first_target(tt, fps.subrange(i as int, fps.len() as int)),
        decreases fingerprints.len() - i,
    {
        proof {
            let rest = fps.subrange(i as int, fps.len() as int);
            assert(rest.drop_first() =~= fps.subrange(i + 1, fps.len() as int));
        }
        if contains_text(targets, &fingerprints[i]) {
            return Some(fingerprints[i].clone());
        }
        i = i + 1;
    }
    assert(fps.subrange(i as int, fps.len() as int) =~= Seq::<Seq<char>>::empty());
    None
}

proof fn lemma_first_target_is_member(tt: Set<Seq<char>>, fps: Seq<Seq<char>>)
    requires
        first_target(tt, fps) is Some,
    ensures
        fps.contains(first_target(tt, fps)->Some_0),
        tt.contains(first_target(tt, fps)->Some_0),
    decreases fps.len(),
{
    if !tt.contains(fps[0]) {
        lemma_first_target_is_member(tt, fps.drop_first());
        let x = first_target(tt, fps)->Some_0;
        let k = choose|k: int| 0 <= k < fps.drop_first().len() && fps.drop_first()[k] == x;
        assert(fps[k + 1] == x);
    }
}

/// Derives the fingerprints of `key` and returns the first that is a
/// target; `None` when none is, or when the key cannot be derived.
pub fn check_candidate(key: &U256, targets: &HashSet<String>) -> (r: Option<String>)
    ensures
        r matches Some(fp) ==> is_match(target_texts(targets@), key@, fp@),
        match candidate_match(target_texts(targets@), key@) {
            Some(fp) => r matches Some(s) && s@ == fp,
            None => r is None,
        },
{
    match private_key_to_addresses(key) {
        Ok(addresses) => {
            let r = first_target_of(&addresses, targets);
            proof {
                let tt = target_texts(targets@);
                let fps = addresses@.map_values(|s: String| s@);
                if first_target(tt, fps) is Some {
                    lemma_first_target_is_member(tt, fps);
                }
            }
            r
        },
        Err(_) => None,
    }
}

/// Derivation depends on the candidate alone: deriving one key twice gives
/// the same fingerprints, or fails both times.
pub proof fn lemma_derivation_is_pure(a: U256, b: U256)
    requires
        a@ == b@,
    ensures
        derived_fingerprints(a@) == derived_fingerprints(b@),
{
}

} // verus!
