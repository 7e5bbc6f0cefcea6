//! Signatures over field elements.

use vstd::prelude::*;
use crate::codec::{Codec, CodecError, Parsed};
use crate::hash::StarkFelt;

verus! {

/// A public key.
#[derive(Clone, Copy, Debug, Default, PartialEq, Eq, Hash, PartialOrd, Ord, Structural)]
pub struct PublicKey(pub StarkFelt);

impl DeepView for PublicKey {
    type V = PublicKey;

    open spec fn deep_view(&self) -> PublicKey {
        *self
    }
}

impl Codec for PublicKey {
    open spec fn wf(m: PublicKey) -> bool {
        StarkFelt::wf(m.0)
    }

    open spec fn wire(m: PublicKey) -> Seq<u8> {
        StarkFelt::wire(m.0)
    }

    open spec fn parse(s: Seq<u8>) -> Parsed<PublicKey> {
        match StarkFelt::parse(s) {
            Err(e) => Err(e),
            Ok((inner, n)) => Ok((PublicKey(inner), n)),
        }
    }

    proof fn lemma_parse_bounds(s: Seq<u8>) {
        StarkFelt::lemma_parse_bounds(s);
    }

    proof fn lemma_parse_wire(m: PublicKey, rest: Seq<u8>) {
        StarkFelt::lemma_parse_wire(m.0, rest);
    }

    fn encode_to(&self, dest: &mut Vec<u8>) {
        self.0.encode_to(dest);
    }

    fn decode_at(input: &[u8], pos: usize) -> (r: Result<(Self, usize), CodecError>) {
        match StarkFelt::decode_at(input, pos) {
            Ok((inner, next)) => Ok((PublicKey(inner), next)),
            Err(e) => Err(e),
        }
    }
}

/// A signature.
#[derive(Clone, Copy, Debug, Default, PartialEq, Eq, Hash, PartialOrd, Ord, Structural)]
pub struct Signature {
    pub r: StarkFelt,
    pub s: StarkFelt,
}

/// Why a signature could not be checked. Each variant carries the value
/// that was refused.
#[derive(Clone, Copy, Debug, PartialEq, Eq, Structural)]
pub enum CryptoError {
    /// The public key is no point of the curve.
    InvalidPublicKey(PublicKey),
    /// The message hash is not below 2 to the power 251.
    InvalidMessageHash(StarkFelt),
    /// The `r` of the signature is zero or not below 2 to the power 251.
    InvalidR(StarkFelt),
    /// The `s` of the signature is zero or not below 2 to the power 251,
    /// or has no such inverse.
    InvalidS(StarkFelt),
}

/// The argument that the signature check refused.
#[derive(Clone, Copy, Debug, PartialEq, Eq, Structural)]
pub enum VerifyFailure {
    InvalidPublicKey,
    InvalidMessageHash,
    InvalidR,
    InvalidS,
}

/// What the signature check of the Stark curve says of a public key, a
/// message hash and the two parts of a signature.
pub uninterp spec fn spec_ecdsa_verify(
    public_key: StarkFelt,
    message_hash: StarkFelt,
    r: StarkFelt,
    s: StarkFelt,
) -> Result<bool, VerifyFailure>;

/// `starknet_crypto::verify` on the members of the field that the four
/// elements stand for: its result is a function of the four alone. The
/// elements must be canonical, since the conversion to a member of the field
/// fails on any other.
#[verifier::external_body]
fn ecdsa_verify(
    public_key: &StarkFelt,
    message_hash: &StarkFelt,
    r: &StarkFelt,
    s: &StarkFelt,
) -> (res: Result<bool, VerifyFailure>)
    requires
        public_key.is_canonical(),
        message_hash.is_canonical(),
        r.is_canonical(),
        s.is_canonical(),
    ensures
        res == spec_ecdsa_verify(*public_key, *message_hash, *r, *s),
{
    let member = |felt: &StarkFelt|
        starknet_crypto::FieldElement::from_bytes_be(&felt.to_be_bytes()).unwrap();
    let (key, hash) = (member(public_key), member(message_hash));
    match starknet_crypto::verify(&key, &hash, &member(r), &member(s)) {
        Ok(valid) => Ok(valid),
        Err(starknet_crypto::VerifyError::InvalidPublicKey) => Err(VerifyFailure::InvalidPublicKey),
        Err(starknet_crypto::VerifyError::InvalidMessageHash) => Err(
            VerifyFailure::InvalidMessageHash,
        ),
        Err(starknet_crypto::VerifyError::InvalidR) => Err(VerifyFailure::InvalidR),
        Err(starknet_crypto::VerifyError::InvalidS) => Err(VerifyFailure::InvalidS),
    }
}

/// What a check that ended in `raw` says to the caller: the verdict as it
/// is, a failure together with the value that it refused.
pub open spec fn spec_crypto_outcome(
    raw: Result<bool, VerifyFailure>,
    message_hash: StarkFelt,
    signature: Signature,
    public_key: PublicKey,
) -> Result<bool, CryptoError> {
    match raw {
        Ok(valid) => Ok(valid),
        Err(VerifyFailure::InvalidPublicKey) => Err(CryptoError::InvalidPublicKey(public_key)),
        Err(VerifyFailure::InvalidMessageHash) => Err(
            CryptoError::InvalidMessageHash(message_hash),
        ),
        Err(VerifyFailure::InvalidR) => Err(CryptoError::InvalidR(signature.r)),
        Err(VerifyFailure::InvalidS) => Err(CryptoError::InvalidS(signature.s)),
    }
}

/// What a check that ended in `raw` says to the caller.
pub fn crypto_outcome(
    raw: Result<bool, VerifyFailure>,
    message_hash: &StarkFelt,
    signature: &Signature,
    public_key: &PublicKey,
) -> (res: Result<bool, CryptoError>)
    ensures
        res == spec_crypto_outcome(raw, *message_hash, *signature, *public_key),
{
    match raw {
        Ok(valid) => Ok(valid),
        Err(VerifyFailure::InvalidPublicKey) => Err(CryptoError::InvalidPublicKey(*public_key)),
        Err(VerifyFailure::InvalidMessageHash) => Err(
            CryptoError::InvalidMessageHash(*message_hash),
        ),
        Err(VerifyFailure::InvalidR) => Err(CryptoError::InvalidR(signature.r)),
        Err(VerifyFailure::InvalidS) => Err(CryptoError::InvalidS(signature.s)),
    }
}

/// Whether a part of a signature is in range: not zero, and below 2 to the
/// power 251.
pub open spec fn signature_part_in_range(part: StarkFelt) -> bool {
    part.value() != 0 && part.is_below_bound()
}

/// What the check of a signature over a message hash gives. A value out of
/// range is refused with its own error, the message hash first, then `r`,
/// then `s`, then a public key that is no member of the field; what is in
/// range is left to the curve, which says whether the signature is the
/// signer's, or refuses the key or `s`.
pub open spec fn spec_verify_message_hash_signature(
    message_hash: StarkFelt,
    signature: Signature,
    public_key: PublicKey,
) -> Result<bool, CryptoError> {
    if !message_hash.is_below_bound() {
        Err(CryptoError::InvalidMessageHash(message_hash))
    } else if !signature_part_in_range(signature.r) {
        Err(CryptoError::InvalidR(signature.r))
    } else if !signature_part_in_range(signature.s) {
        Err(CryptoError::InvalidS(signature.s))
    } else if !public_key.0.is_canonical() {
        Err(CryptoError::InvalidPublicKey(public_key))
    } else {
        spec_crypto_outcome(
            spec_ecdsa_verify(public_key.0, message_hash, signature.r, signature.s),
            message_hash,
            signature,
            public_key,
        )
    }
}

/// Verifies the authenticity of a signed message hash given the public key
/// of the signer. A signature that is well-formed and not the signer's
/// gives `Ok(false)`, no error.
pub fn verify_message_hash_signature(
    message_hash: &StarkFelt,
    signature: &Signature,
    public_key: &PublicKey,
) -> (res: Result<bool, CryptoError>)
    ensures
        res == spec_verify_message_hash_signature(*message_hash, *signature, *public_key),
{
    if !message_hash.below_bound() {
        return Err(CryptoError::InvalidMessageHash(*message_hash));
    }
    if signature.r.is_zero() || !signature.r.below_bound() {
        return Err(CryptoError::InvalidR(signature.r));
    }
    if signature.s.is_zero() || !signature.s.below_bound() {
        return Err(CryptoError::InvalidS(signature.s));
    }
    if !public_key.0.canonical() {
        return Err(CryptoError::InvalidPublicKey(*public_key));
    }
    let raw = ecdsa_verify(&public_key.0, message_hash, &signature.r, &signature.s);
    crypto_outcome(raw, message_hash, signature, public_key)
}

/// A part of the signature that is out of range is refused by its name,
/// `r` before `s`, whatever the public key: where the message hash is in
/// range, the check gives no verdict on such a signature.
pub proof fn lemma_out_of_range_part_is_named(
    message_hash: StarkFelt,
    signature: Signature,
    public_key: PublicKey,
)
    requires
        message_hash.is_below_bound(),
    ensures
        !signature_part_in_range(signature.r) ==> spec_verify_message_hash_signature(
            message_hash,
            signature,
            public_key,
        ) == Err::<bool, CryptoError>(CryptoError::InvalidR(signature.r)),
        signature_part_in_range(signature.r) && !signature_part_in_range(signature.s)
            ==> spec_verify_message_hash_signature(message_hash, signature, public_key) == Err::<
            bool,
            CryptoError,
        >(CryptoError::InvalidS(signature.s)),
        spec_verify_message_hash_signature(message_hash, signature, public_key) is Ok
            ==> signature_part_in_range(signature.r) && signature_part_in_range(signature.s)
            && public_key.0.is_canonical(),
{
}

} // verus!
