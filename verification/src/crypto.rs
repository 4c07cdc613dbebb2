//! Key pairs and the signature primitive.
//!
//! Keys and signatures live in the library as plain byte vectors; the
//! Ed25519 primitives behind them are relied on through the trusted
//! wrappers below. Ed25519 key derivation, signing and verification are
//! deterministic functions of their byte inputs, so each result carries a
//! name (`pk_of`, `sig_of`, `sig_checks`) that the chain contracts speak of.

use vstd::prelude::*;
use rand_core::RngCore;
use ed25519_dalek::Signer;
use ed25519_dalek::Verifier;

verus! {

/// The public key that a 32-byte secret seed determines.
pub uninterp spec fn pk_of(seed: Seq<u8>) -> Seq<u8>;

/// The signature that signing `msg` with the key of `seed` produces.
pub uninterp spec fn sig_of(seed: Seq<u8>, msg: Seq<u8>) -> Seq<u8>;

/// Whether `sig` is a valid signature of `msg` under the encoded public
/// key `pk`; false whenever `pk` or `sig` does not decode.
pub uninterp spec fn sig_checks(pk: Seq<u8>, msg: Seq<u8>, sig: Seq<u8>) -> bool;

/// Relies on ed25519_dalek::SigningKey::from_bytes and verifying_key: the
/// public key is a deterministic function of the 32-byte seed, encoded as
/// 32 bytes.
#[verifier::external_body]
fn public_of(seed: &Vec<u8>) -> (r: Vec<u8>)
    requires
        seed@.len() == 32,
    ensures
        r@ == pk_of(seed@),
        r@.len() == 32,
{
    let mut arr = [0u8; 32];
    arr.copy_from_slice(&seed[..]);
    let sk = ed25519_dalek::SigningKey::from_bytes(&arr);
    sk.verifying_key().to_bytes().to_vec()
}

/// Relies on ed25519_dalek::SigningKey::sign: Ed25519 signing is a
/// deterministic function of seed and message, its signature encodes as 64
/// bytes, and a signature it produces verifies under the seed's own public
/// key.
#[verifier::external_body]
fn sign_bytes(seed: &Vec<u8>, msg: &Vec<u8>) -> (r: Vec<u8>)
    requires
        seed@.len() == 32,
    ensures
        r@ == sig_of(seed@, msg@),
        r@.len() == 64,
        sig_checks(pk_of(seed@), msg@, r@),
{
    let mut arr = [0u8; 32];
    arr.copy_from_slice(&seed[..]);
    let sk = ed25519_dalek::SigningKey::from_bytes(&arr);
    sk.sign(&msg[..]).to_bytes().to_vec()
}

/// Relies on ed25519_dalek::VerifyingKey::verify: verification is a
/// deterministic function of public key, message and signature; a key or
/// signature of the wrong shape verifies nothing.
#[verifier::external_body]
pub fn check_signature(pk: &Vec<u8>, msg: &Vec<u8>, sig: &Vec<u8>) -> (r: bool)
    ensures
        r == sig_checks(pk@, msg@, sig@),
{
    if pk.len() != 32 || sig.len() != 64 {
        return false;
    }
    let mut pk_arr = [0u8; 32];
    pk_arr.copy_from_slice(&pk[..]);
    let mut sig_arr = [0u8; 64];
    sig_arr.copy_from_slice(&sig[..]);
    let vk = match ed25519_dalek::VerifyingKey::from_bytes(&pk_arr) {
        Ok(vk) => vk,
        Err(_) => return false,
    };
    let sig = ed25519_dalek::Signature::from_bytes(&sig_arr);
    vk.verify(&msg[..], &sig).is_ok()
}

/// Relies on rand_core::OsRng::fill_bytes: 32 bytes of operating-system
/// randomness; nothing is promised of their values.
#[verifier::external_body]
fn random_seed() -> (r: Vec<u8>)
    ensures
        r@.len() == 32,
{
    let mut buf = [0u8; 32];
    rand_core::OsRng.fill_bytes(&mut buf);
    buf.to_vec()
}

/// Copies a byte vector.
pub fn clone_bytes(v: &Vec<u8>) -> (r: Vec<u8>)
    ensures
        r@ == v@,
{
    let mut r: Vec<u8> = Vec::new();
    let mut k: usize = 0;
    while k < v.len()
        invariant
            k <= v.len(),
            r@ =~= v@.subrange(0, k as int),
        decreases v.len() - k,
    {
        r.push(v[k]);
        k += 1;
    }
    proof {
        assert(r@ =~= v@);
    }
    r
}

/// A signing key pair: the 32-byte secret seed and the public key it
/// determines.
pub struct KeyPair {
    pub seed: Vec<u8>,
    pub public: Vec<u8>,
}

impl KeyPair {
    /// A key pair is well formed when its public part is the one its seed
    /// determines.
    pub open spec fn wf(&self) -> bool {
        self.seed@.len() == 32 && self.public@.len() == 32 && self.public@ == pk_of(self.seed@)
    }

    /// The key pair that the given 32-byte seed determines.
    pub fn from_seed(seed: Vec<u8>) -> (r: KeyPair)
        requires
            seed@.len() == 32,
        ensures
            r.wf(),
            r.seed@ == seed@,
    {
        let public = public_of(&seed);
        KeyPair { seed, public }
    }

    /// A fresh key pair from operating-system randomness.
    pub fn generate() -> (r: KeyPair)
        ensures
            r.wf(),
    {
        KeyPair::from_seed(random_seed())
    }

    /// A copy of the encoded public key.
    pub fn public_key(&self) -> (r: Vec<u8>)
        ensures
            r@ == self.public@,
    {
        clone_bytes(&self.public)
    }
}

impl Clone for KeyPair {
    fn clone(&self) -> (r: Self)
        ensures
            r.seed@ == self.seed@,
            r.public@ == self.public@,
    {
        KeyPair { seed: clone_bytes(&self.seed), public: clone_bytes(&self.public) }
    }
}

/// Signs `msg` with `kp`'s secret key.
pub fn sign_message(kp: &KeyPair, msg: &Vec<u8>) -> (r: Vec<u8>)
    requires
        kp.wf(),
    ensures
        r@ == sig_of(kp.seed@, msg@),
        r@.len() == 64,
        sig_checks(pk_of(kp.seed@), msg@, r@),
{
    sign_bytes(&kp.seed, msg)
}

} // verus!
