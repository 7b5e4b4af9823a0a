//! The process-wide cryptographic subsystem, and what the node asks of it.

use crate::error::RoutingError;
use vstd::prelude::*;

verus! {

/// The length of a SHA-512 digest in bytes.
pub const DIGEST_LEN: usize = 64;

/// The length of a public signing key in bytes.
pub const SIGN_PUBLIC_KEY_LEN: usize = 32;

/// The length of a secret signing key in bytes.
pub const SIGN_SECRET_KEY_LEN: usize = 64;

/// The length of a public encryption key in bytes.
pub const BOX_PUBLIC_KEY_LEN: usize = 32;

/// The length of a secret encryption key in bytes.
pub const BOX_SECRET_KEY_LEN: usize = 32;

/// The SHA-512 digest of `data`.
pub uninterp spec fn sha512_digest(data: Seq<u8>) -> Seq<u8>;

/// Trusted: calls `sodiumoxide::init()`, which initialises the sodium library and makes its
/// key generation safe to use from several threads. It may be called more than once. The
/// outcome depends on the machine, so nothing is claimed of it.
#[verifier::external_body]
fn sodium_init() -> Result<(), ()> {
    sodiumoxide::init()
}

/// Trusted: calls `sodiumoxide::crypto::hash::sha512::hash`, which computes the SHA-512
/// digest of its argument. The claim is that the result is that digest, a function of the
/// bytes alone, and that it is `DIGEST_LEN` bytes long.
#[verifier::external_body]
fn sodium_sha512(data: &[u8]) -> (digest: Vec<u8>)
    ensures
        digest@ == sha512_digest(data@),
        digest@.len() == DIGEST_LEN,
{
    sodiumoxide::crypto::hash::sha512::hash(data).0.to_vec()
}

/// Trusted: calls `sodiumoxide::crypto::sign::gen_keypair()`, which draws a fresh pair of
/// signing keys. The keys are random; the claim is only their lengths, public key first.
#[verifier::external_body]
fn sodium_sign_keypair() -> (keys: (Vec<u8>, Vec<u8>))
    ensures
        keys.0@.len() == SIGN_PUBLIC_KEY_LEN,
        keys.1@.len() == SIGN_SECRET_KEY_LEN,
{
    let (public, secret) = sodiumoxide::crypto::sign::gen_keypair();
    (public.0.to_vec(), secret.0.to_vec())
}

/// Trusted: calls `sodiumoxide::crypto::box_::gen_keypair()`, which draws a fresh pair of
/// encryption keys. The keys are random; the claim is only their lengths, public key first.
#[verifier::external_body]
fn sodium_box_keypair() -> (keys: (Vec<u8>, Vec<u8>))
    ensures
        keys.0@.len() == BOX_PUBLIC_KEY_LEN,
        keys.1@.len() == BOX_SECRET_KEY_LEN,
{
    let (public, secret) = sodiumoxide::crypto::box_::gen_keypair();
    (public.0.to_vec(), secret.0.to_vec())
}

/// What the outcome of initialising the cryptographic subsystem means for the node: no
/// failure where it succeeded, the fatal `CryptoInitFailure` where it did not.
pub fn init_failure(outcome: &Result<(), ()>) -> (r: Option<RoutingError>)
    ensures
        r == if outcome is Ok {
            None
        } else {
            Some(RoutingError::CryptoInitFailure)
        },
{
    match outcome {
        Ok(_) => None,
        Err(_) => Some(RoutingError::CryptoInitFailure),
    }
}

/// Evidence that the cryptographic subsystem has been initialised in this process. A node
/// is built only by one who holds it.
pub struct CryptoContext {
    initialised: bool,
}

impl CryptoContext {
    /// Initialises the cryptographic subsystem. It may be called more than once in a
    /// process. A failure is fatal: nothing that follows may run without the subsystem.
    pub fn init() -> (r: Result<CryptoContext, RoutingError>)
        ensures
            r matches Err(e) ==> e == RoutingError::CryptoInitFailure,
    {
        let outcome = sodium_init();
        match init_failure(&outcome) {
            None => Ok(CryptoContext { initialised: true }),
            Some(failure) => Err(failure),
        }
    }

    /// The SHA-512 digest of `data`.
    pub fn sha512(&self, data: &Vec<u8>) -> (digest: Vec<u8>)
        ensures
            digest@ == sha512_digest(data@),
            digest@.len() == DIGEST_LEN,
    {
        sodium_sha512(data.as_slice())
    }

    /// A fresh pair of signing keys, the public key first.
    pub fn sign_keypair(&self) -> (keys: (Vec<u8>, Vec<u8>))
        ensures
            keys.0@.len() == SIGN_PUBLIC_KEY_LEN,
            keys.1@.len() == SIGN_SECRET_KEY_LEN,
    {
        sodium_sign_keypair()
    }

    /// A fresh pair of encryption keys, the public key first.
    pub fn box_keypair(&self) -> (keys: (Vec<u8>, Vec<u8>))
        ensures
            keys.0@.len() == BOX_PUBLIC_KEY_LEN,
            keys.1@.len() == BOX_SECRET_KEY_LEN,
    {
        sodium_box_keypair()
    }
}

} // verus!
