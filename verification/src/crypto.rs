use ed25519_dalek::{Signer, Verifier};
use sha2::Digest;
use vstd::prelude::*;

verus! {

/// The 64-byte SHA-512 digest of `data`.
pub uninterp spec fn spec_sha512(data: Seq<u8>) -> Seq<u8>;

/// The Ed25519 public key that belongs to the secret `seed`.
pub uninterp spec fn spec_public_key(seed: [u8; 32]) -> [u8; 32];

/// The Ed25519 signature that the secret `seed` gives to `message`.
pub uninterp spec fn spec_sign(seed: [u8; 32], message: Seq<u8>) -> [u8; 64];

/// The outcome of verifying `signature` over `message` under `key`: `None` where
/// it is accepted, else the verifier's description of what is wrong.
pub uninterp spec fn spec_verify(key: [u8; 32], message: Seq<u8>, signature: [u8; 64]) -> Option<
    Seq<char>,
>;

/// The outcome of verifying in one batch that `signatures[i]` signs `message`
/// under `keys[i]`, for every `i`: `None` where the batch is accepted, else the
/// verifier's description of what is wrong.
pub uninterp spec fn spec_verify_batch(
    message: Seq<u8>,
    keys: Seq<[u8; 32]>,
    signatures: Seq<[u8; 64]>,
) -> Option<Seq<char>>;

/// `sha2::Sha512::digest`: the digest is a function of the bytes alone.
#[verifier::external_body]
pub(crate) fn sha512(data: &[u8]) -> (digest: [u8; 64])
    ensures
        digest@ == spec_sha512(data@),
{
    sha2::Sha512::digest(data).into()
}

/// `ed25519_dalek::SigningKey::from_bytes` followed by `verifying_key`: the public
/// key is derived from the seed alone. Neither call fails.
#[verifier::external_body]
pub(crate) fn ed25519_public_key(seed: &[u8; 32]) -> (key: [u8; 32])
    ensures
        key == spec_public_key(*seed),
{
    ed25519_dalek::SigningKey::from_bytes(seed).verifying_key().to_bytes()
}

/// `ed25519_dalek::SigningKey::sign`: Ed25519 signatures are deterministic, so the
/// signature is a function of the seed and the message. Signing with a key made
/// from a seed does not fail. The signature is valid: as the crate's
/// documentation shows, it verifies under the verifying key of the signing key,
/// also after that key went through its bytes.
#[verifier::external_body]
pub(crate) fn ed25519_sign(seed: &[u8; 32], message: &[u8]) -> (signature: [u8; 64])
    ensures
        signature == spec_sign(*seed, message@),
        spec_verify(spec_public_key(*seed), message@, signature) is None,
{
    ed25519_dalek::SigningKey::from_bytes(seed).sign(message).to_bytes()
}

/// `ed25519_dalek::VerifyingKey::from_bytes` followed by `verify`: accepts or
/// rejects by the key, the message and the signature alone, and describes a
/// rejection (a key that is no curve point included) by the error's `Display`.
#[verifier::external_body]
pub(crate) fn ed25519_verify(key: &[u8; 32], message: &[u8], signature: &[u8; 64]) -> (outcome:
    Result<(), String>)
    ensures
        outcome is Ok <==> spec_verify(*key, message@, *signature) is None,
        outcome matches Err(text) ==> spec_verify(*key, message@, *signature) == Some(text@),
{
    let signature = ed25519_dalek::Signature::from_bytes(signature);
    ed25519_dalek::VerifyingKey::from_bytes(key)
        .and_then(|key| key.verify(message, &signature))
        .map_err(|error| error.to_string())
}

/// `ed25519_dalek::verify_batch` on one message repeated for every pair of
/// `keys[i]` and `signatures[i]`: the nonces of the batch are derived from its
/// inputs, so the outcome is a function of them alone. A key that is no curve
/// point, or lists of different lengths, are rejections like any other.
#[verifier::external_body]
pub(crate) fn ed25519_verify_batch(
    message: &[u8],
    keys: &Vec<[u8; 32]>,
    signatures: &Vec<[u8; 64]>,
) -> (outcome: Result<(), String>)
    ensures
        outcome is Ok <==> spec_verify_batch(message@, keys@, signatures@) is None,
        outcome matches Err(text) ==> spec_verify_batch(message@, keys@, signatures@) == Some(
            text@,
        ),
{
    let messages: Vec<&[u8]> = signatures.iter().map(|_| message).collect();
    let signatures: Vec<ed25519_dalek::Signature> =
        signatures.iter().map(ed25519_dalek::Signature::from_bytes).collect();
    let keys: Result<Vec<ed25519_dalek::VerifyingKey>, ed25519_dalek::SignatureError> =
        keys.iter().map(ed25519_dalek::VerifyingKey::from_bytes).collect();
    keys.and_then(|keys| ed25519_dalek::verify_batch(&messages, &signatures, &keys))
        .map_err(|error| error.to_string())
}

} // verus!
