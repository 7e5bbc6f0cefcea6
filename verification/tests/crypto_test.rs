use starknet_api::api_core::{GlobalRoot, SequencerPublicKey};
use starknet_api::block::{
    block_message, block_outcome, verify_block_signature, BlockHash, BlockSignature,
    BlockVerificationError,
};
use starknet_api::crypto::{
    crypto_outcome, verify_message_hash_signature, CryptoError, PublicKey, Signature,
    VerifyFailure,
};
use starknet_api::hash::{poseidon_hash_array, StarkFelt};
use starknet_crypto::FieldElement;

fn felt_of(element: &FieldElement) -> StarkFelt {
    StarkFelt::from_be_bytes(&element.to_bytes_be())
}

fn element_of(felt: &StarkFelt) -> FieldElement {
    FieldElement::from_bytes_be(&felt.to_be_bytes()).unwrap()
}

fn two_pow_251() -> StarkFelt {
    StarkFelt { hi: 1 << 123, lo: 0 }
}

fn stark_prime() -> StarkFelt {
    StarkFelt { hi: 0x0800_0000_0000_0011_0000_0000_0000_0000, lo: 1 }
}

struct Signed {
    public_key: SequencerPublicKey,
    signature: BlockSignature,
    block_hash: BlockHash,
    commitment: GlobalRoot,
}

fn signed_block() -> Signed {
    let block_hash = BlockHash(StarkFelt::from(0x1234_5678_u64));
    let commitment = GlobalRoot(StarkFelt::from(0x9abc_def0_u64));
    let message = block_message(&block_hash, &commitment);
    let private_key = FieldElement::from(0x1357_9bdf_u64);
    let signature =
        starknet_crypto::sign(&private_key, &element_of(&message), &FieldElement::from(0x2468_u64))
            .unwrap();
    Signed {
        public_key: SequencerPublicKey(PublicKey(felt_of(&starknet_crypto::get_public_key(
            &private_key,
        )))),
        signature: BlockSignature(Signature { r: felt_of(&signature.r), s: felt_of(&signature.s) }),
        block_hash,
        commitment,
    }
}

#[test]
fn felt_bytes_are_those_of_the_field_element() {
    let element = FieldElement::from_hex_be(
        "0x0123456789abcdef0123456789abcdef0123456789abcdef0123456789abcdef",
    )
    .unwrap();
    let felt = felt_of(&element);
    assert_eq!(felt.hi, 0x0123456789abcdef0123456789abcdef);
    assert_eq!(felt.lo, 0x0123456789abcdef0123456789abcdef);
    assert_eq!(felt.to_be_bytes(), element.to_bytes_be());
    assert_eq!(element_of(&felt), element);
}

#[test]
fn canonical_is_below_the_prime() {
    let below = StarkFelt { hi: 0x0800_0000_0000_0011_0000_0000_0000_0000, lo: 0 };
    assert!(below.canonical());
    assert!(FieldElement::from_bytes_be(&below.to_be_bytes()).is_ok());
    assert!(!stark_prime().canonical());
    assert!(FieldElement::from_bytes_be(&stark_prime().to_be_bytes()).is_err());
    assert!(two_pow_251().canonical());
    assert!(!two_pow_251().below_bound());
    assert!(StarkFelt { hi: (1 << 123) - 1, lo: u128::MAX }.below_bound());
}

#[test]
fn block_message_is_the_hash_of_block_hash_then_commitment() {
    let block_hash = BlockHash(StarkFelt::from(1_u8));
    let commitment = GlobalRoot(StarkFelt::from(2_u8));
    let expected = starknet_crypto::poseidon_hash_many(&[
        FieldElement::from(1_u8),
        FieldElement::from(2_u8),
    ]);
    assert_eq!(block_message(&block_hash, &commitment), felt_of(&expected));
    assert_eq!(
        poseidon_hash_array(&[StarkFelt::from(1_u8), StarkFelt::from(2_u8)]).0,
        felt_of(&expected)
    );
    let swapped = block_message(&BlockHash(commitment.0), &GlobalRoot(block_hash.0));
    assert_ne!(block_message(&block_hash, &commitment), swapped);
    assert_ne!(block_message(&block_hash, &commitment), block_hash.0);
}

#[test]
fn a_correct_signature_verifies() {
    let signed = signed_block();
    assert_eq!(
        verify_block_signature(
            &signed.public_key,
            &signed.signature,
            &signed.commitment,
            &signed.block_hash
        ),
        Ok(true)
    );
}

#[test]
fn a_signature_over_another_block_does_not_verify() {
    let signed = signed_block();
    let other = BlockHash(StarkFelt::from(0x1234_5679_u64));
    assert_eq!(
        verify_block_signature(&signed.public_key, &signed.signature, &signed.commitment, &other),
        Ok(false)
    );
    assert_eq!(
        verify_block_signature(
            &signed.public_key,
            &signed.signature,
            &GlobalRoot(signed.block_hash.0),
            &BlockHash(signed.commitment.0)
        ),
        Ok(false)
    );
}

#[test]
fn a_flipped_bit_gives_false_or_names_the_part() {
    let signed = signed_block();
    for bit in 0..256u32 {
        for part in 0..2 {
            let mut signature = signed.signature.0;
            let target = if part == 0 { &mut signature.r } else { &mut signature.s };
            if bit < 128 {
                target.lo ^= 1u128 << bit;
            } else {
                target.hi ^= 1u128 << (bit - 128);
            }
            let flipped = *target;
            let result = verify_block_signature(
                &signed.public_key,
                &BlockSignature(signature),
                &signed.commitment,
                &signed.block_hash,
            );
            let out_of_range = !flipped.below_bound() || flipped.is_zero();
            match result {
                Ok(valid) => {
                    assert!(!out_of_range);
                    assert!(!valid);
                }
                Err(BlockVerificationError::BlockSignatureVerificationFailed {
                    block_hash,
                    error,
                }) => {
                    assert_eq!(block_hash, signed.block_hash);
                    if part == 0 {
                        assert!(out_of_range);
                        assert_eq!(error, CryptoError::InvalidR(flipped));
                    } else {
                        assert_eq!(error, CryptoError::InvalidS(flipped));
                    }
                }
            }
        }
    }
}

#[test]
fn values_out_of_range_are_refused_in_the_order_of_the_curve_check() {
    let signed = signed_block();
    let message = block_message(&signed.block_hash, &signed.commitment);
    let good = signed.signature.0;
    let key = signed.public_key.0;
    let cases = [two_pow_251(), stark_prime(), StarkFelt { hi: u128::MAX, lo: u128::MAX }];
    for bad in cases {
        assert_eq!(
            verify_message_hash_signature(&bad, &Signature { r: bad, s: bad }, &PublicKey(bad)),
            Err(CryptoError::InvalidMessageHash(bad))
        );
        assert_eq!(
            verify_message_hash_signature(&message, &Signature { r: bad, s: bad }, &PublicKey(bad)),
            Err(CryptoError::InvalidR(bad))
        );
        assert_eq!(
            verify_message_hash_signature(&message, &Signature { r: good.r, s: bad }, &key),
            Err(CryptoError::InvalidS(bad))
        );
    }
    let zero = StarkFelt::default();
    assert_eq!(
        verify_message_hash_signature(&message, &Signature { r: zero, s: good.s }, &key),
        Err(CryptoError::InvalidR(zero))
    );
    assert_eq!(
        verify_message_hash_signature(&message, &Signature { r: good.r, s: zero }, &key),
        Err(CryptoError::InvalidS(zero))
    );
    assert_eq!(
        verify_message_hash_signature(&message, &good, &PublicKey(stark_prime())),
        Err(CryptoError::InvalidPublicKey(PublicKey(stark_prime())))
    );
}

#[test]
fn the_curve_check_agrees_where_it_can_be_asked() {
    let signed = signed_block();
    let message = block_message(&signed.block_hash, &signed.commitment);
    let good = signed.signature.0;
    let key = signed.public_key.0;
    let values = [StarkFelt::default(), StarkFelt::from(5_u8), two_pow_251(), good.r, good.s, key.0];
    for r in values {
        for s in values {
            for public_key in values {
                let ours = verify_message_hash_signature(
                    &message,
                    &Signature { r, s },
                    &PublicKey(public_key),
                );
                let theirs = starknet_crypto::verify(
                    &element_of(&public_key),
                    &element_of(&message),
                    &element_of(&r),
                    &element_of(&s),
                );
                match (ours, theirs) {
                    (Ok(a), Ok(b)) => assert_eq!(a, b),
                    (Err(CryptoError::InvalidR(v)), Err(starknet_crypto::VerifyError::InvalidR)) => {
                        assert_eq!(v, r)
                    }
                    (Err(CryptoError::InvalidS(v)), Err(starknet_crypto::VerifyError::InvalidS)) => {
                        assert_eq!(v, s)
                    }
                    (
                        Err(CryptoError::InvalidPublicKey(v)),
                        Err(starknet_crypto::VerifyError::InvalidPublicKey),
                    ) => assert_eq!(v.0, public_key),
                    (a, b) => panic!("{:?} against {:?}", a, b),
                }
            }
        }
    }
}

#[test]
fn a_key_that_is_no_point_is_refused() {
    let signed = signed_block();
    let message = block_message(&signed.block_hash, &signed.commitment);
    let mut refused = 0;
    for x in 1..40u8 {
        let key = PublicKey(StarkFelt::from(x));
        match verify_message_hash_signature(&message, &signed.signature.0, &key) {
            Err(CryptoError::InvalidPublicKey(k)) => {
                assert_eq!(k, key);
                refused += 1;
            }
            Ok(valid) => assert!(!valid),
            Err(e) => panic!("{:?}", e),
        }
    }
    assert!(refused > 0);
}

#[test]
fn outcomes_carry_the_refused_value() {
    let message = StarkFelt::from(1_u8);
    let signature = Signature { r: StarkFelt::from(2_u8), s: StarkFelt::from(3_u8) };
    let key = PublicKey(StarkFelt::from(4_u8));
    assert_eq!(crypto_outcome(Ok(true), &message, &signature, &key), Ok(true));
    assert_eq!(crypto_outcome(Ok(false), &message, &signature, &key), Ok(false));
    assert_eq!(
        crypto_outcome(Err(VerifyFailure::InvalidPublicKey), &message, &signature, &key),
        Err(CryptoError::InvalidPublicKey(key))
    );
    assert_eq!(
        crypto_outcome(Err(VerifyFailure::InvalidMessageHash), &message, &signature, &key),
        Err(CryptoError::InvalidMessageHash(message))
    );
    assert_eq!(
        crypto_outcome(Err(VerifyFailure::InvalidR), &message, &signature, &key),
        Err(CryptoError::InvalidR(signature.r))
    );
    assert_eq!(
        crypto_outcome(Err(VerifyFailure::InvalidS), &message, &signature, &key),
        Err(CryptoError::InvalidS(signature.s))
    );
    let block_hash = BlockHash(StarkFelt::from(9_u8));
    assert_eq!(block_outcome(Ok(false), &block_hash), Ok(false));
    assert_eq!(
        block_outcome(Err(CryptoError::InvalidR(signature.r)), &block_hash),
        Err(BlockVerificationError::BlockSignatureVerificationFailed {
            block_hash,
            error: CryptoError::InvalidR(signature.r)
        })
    );
}
