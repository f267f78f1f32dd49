use sha2::{Digest, Sha256};
use utxo_codec::{
    ByteLength, Commitment, Decodeable, Decryptor, Encodeable, Encryptor, Error, Nullifier,
    Output, OutputId, PrivateCommitment, Transaction, UnencryptedOutput,
};

/// A 32-byte array whose last byte is `b`.
fn b32(b: u8) -> [u8; 32] {
    let mut a = [0u8; 32];
    a[31] = b;
    a
}

/// A 20-byte array whose last byte is `b`.
fn b20(b: u8) -> [u8; 20] {
    let mut a = [0u8; 20];
    a[19] = b;
    a
}

/// The amount 1000 as a 32-byte big-endian integer.
fn amount_1000() -> [u8; 32] {
    let mut a = [0u8; 32];
    a[30] = 0x03;
    a[31] = 0xE8;
    a
}

fn sample_output() -> Output {
    Output {
        amount: amount_1000(),
        asset: b32(0x11),
        owner: b20(0x22),
    }
}

#[test]
fn test_commitment_encode_decode() {
    // Test Private Commitment
    let private_commitment = Commitment::Private(PrivateCommitment(b32(0xAB)));
    let encoded_private = private_commitment.encode();
    let decoded_private = Commitment::decode(&encoded_private).unwrap();
    assert_eq!(private_commitment, decoded_private);

    // Test Public Commitment
    let public_output = Output {
        amount: amount_1000(),
        asset: b32(0xCD),
        owner: b20(0xEF),
    };
    let public_commitment = Commitment::Public(public_output);
    let encoded_public = public_commitment.encode();
    let decoded_public = Commitment::decode(&encoded_public).unwrap();
    assert_eq!(public_commitment, decoded_public);

    // Test invalid type
    let invalid_bytes = [3u8; 33]; // 3 is not a valid commitment type
    assert!(matches!(
        Commitment::decode(&invalid_bytes),
        Err(Error::UnsupportedCommitmentType)
    ));

    // Test empty input
    assert!(matches!(Commitment::decode(&[]), Err(Error::FailedToDecode)));
}

#[test]
fn test_nullifier_encode_decode() {
    // Test Private Nullifier
    let private_nullifier = Nullifier::Private(b32(0x5A));
    let encoded_private = private_nullifier.encode();
    let decoded_private = Nullifier::decode(&encoded_private).unwrap();
    assert_eq!(private_nullifier, decoded_private);

    // Test Public Nullifier
    let public_output_id = OutputId {
        txhash: b32(0x77),
        index: 0,
    };
    let public_nullifier = Nullifier::Public(public_output_id);
    let encoded_public = public_nullifier.encode();
    let decoded_public = Nullifier::decode(&encoded_public).unwrap();
    assert_eq!(public_nullifier, decoded_public);

    // Test invalid type
    let invalid_bytes = [3u8; 33]; // 3 is not a valid nullifier type
    assert!(matches!(
        Nullifier::decode(&invalid_bytes),
        Err(Error::UnsupportedNullifierType)
    ));

    // Test empty input
    assert!(matches!(Nullifier::decode(&[]), Err(Error::FailedToDecode)));
}

#[test]
fn test_transaction_encode_decode() {
    // Create a sample transaction
    let transaction = Transaction {
        inputs: [
            Nullifier::Private(b32(0x01)),
            Nullifier::Public(OutputId {
                txhash: b32(0x02),
                index: 0,
            }),
        ]
        .to_vec(),
        outputs: [
            Commitment::Private(PrivateCommitment(b32(0x03))),
            Commitment::Public(Output {
                amount: amount_1000(),
                asset: b32(0x04),
                owner: b20(0x05),
            }),
        ]
        .to_vec(),
    };

    // Encode the transaction
    let encoded = transaction.encode();

    // Decode the transaction
    let decoded = Transaction::decode(&encoded).unwrap();

    // Assert that the decoded transaction matches the original
    assert_eq!(transaction, decoded);

    // Test with empty transaction
    let empty_transaction = Transaction {
        inputs: [].to_vec(),
        outputs: [].to_vec(),
    };
    let encoded_empty = empty_transaction.encode();
    let decoded_empty = Transaction::decode(&encoded_empty).unwrap();
    assert_eq!(empty_transaction, decoded_empty);

    // Test with invalid input
    let invalid_input = [0, 1, 2, 3, 4]; // Too short to be a valid transaction
    assert_eq!(Transaction::decode(&invalid_input), Err(Error::FailedToDecode));
}

#[test]
fn output_round_trip_with_trailing_bytes() {
    let output = sample_output();
    let mut encoded = output.encode();
    assert_eq!(encoded.len(), 84);
    encoded.extend_from_slice(&[0xFF, 0x00, 0x42]);
    let decoded = Output::decode(&encoded).unwrap();
    assert_eq!(output, decoded);
}

#[test]
fn output_id_round_trip() {
    let id = OutputId {
        txhash: b32(0x99),
        index: 0xDEAD_BEEF,
    };
    let mut encoded = id.encode();
    assert_eq!(encoded.len(), 36);
    // The index is encoded big-endian after the 32-byte transaction hash.
    assert_eq!(&encoded[32..36], &[0xDE, 0xAD, 0xBE, 0xEF]);
    encoded.push(0x77);
    let decoded = OutputId::decode(&encoded).unwrap();
    assert_eq!(id, decoded);
}

#[test]
fn unencrypted_output_round_trip() {
    let value = UnencryptedOutput {
        output: sample_output(),
        salt: b32(0x3C),
    };
    let mut encoded = value.encode();
    assert_eq!(encoded.len(), 116);
    encoded.push(0xAA);
    let decoded = UnencryptedOutput::decode(&encoded).unwrap();
    assert_eq!(value, decoded);
}

#[test]
fn byte_length_matches_encoded_length() {
    let output = sample_output();
    assert_eq!(output.byte_length(), output.encode().len());

    let private = Commitment::Private(PrivateCommitment(b32(1)));
    assert_eq!(private.byte_length(), private.encode().len());
    let public = Commitment::Public(sample_output());
    assert_eq!(public.byte_length(), public.encode().len());

    let id = OutputId { txhash: b32(2), index: 7 };
    assert_eq!(id.byte_length(), id.encode().len());

    let private_nf = Nullifier::Private(b32(3));
    assert_eq!(private_nf.byte_length(), private_nf.encode().len());
    let public_nf = Nullifier::Public(OutputId { txhash: b32(4), index: 1 });
    assert_eq!(public_nf.byte_length(), public_nf.encode().len());

    let unencrypted = UnencryptedOutput { output: sample_output(), salt: b32(5) };
    assert_eq!(unencrypted.byte_length(), unencrypted.encode().len());
}

#[test]
fn transaction_byte_length_omits_count_prefixes() {
    let transaction = Transaction {
        inputs: vec![Nullifier::Private(b32(1)), Nullifier::Public(OutputId {
            txhash: b32(2),
            index: 9,
        })],
        outputs: vec![Commitment::Private(PrivateCommitment(b32(3)))],
    };
    // 33 + 37 inputs, 33 outputs; the two 2-byte counts are not reported.
    assert_eq!(transaction.byte_length(), 103);
    assert_eq!(transaction.encode().len(), 107);
}

#[test]
fn truncated_buffers_fail_to_decode() {
    assert_eq!(Output::decode(&[0u8; 83]), Err(Error::FailedToDecode));
    assert_eq!(OutputId::decode(&[0u8; 35]), Err(Error::FailedToDecode));
    // A correct tag whose payload is cut short.
    assert!(matches!(Commitment::decode(&[1u8; 10]), Err(Error::FailedToDecode)));
    assert!(matches!(Commitment::decode(&[2u8; 60]), Err(Error::FailedToDecode)));
    assert!(matches!(Nullifier::decode(&[1u8; 32]), Err(Error::FailedToDecode)));
    assert!(matches!(Nullifier::decode(&[2u8; 20]), Err(Error::FailedToDecode)));
    assert_eq!(Transaction::decode(&[0u8]), Err(Error::FailedToDecode));
    assert_eq!(UnencryptedOutput::decode(&[0u8; 115]), Err(Error::FailedToDecode));
    assert_eq!(Output::decode(&[]), Err(Error::FailedToDecode));
    assert_eq!(OutputId::decode(&[]), Err(Error::FailedToDecode));
    assert_eq!(Transaction::decode(&[]), Err(Error::FailedToDecode));
    assert_eq!(UnencryptedOutput::decode(&[]), Err(Error::FailedToDecode));
}

#[test]
fn commitment_tag_discipline() {
    // Any tag other than 1 or 2 is rejected, whatever follows.
    let decoded = Commitment::decode(&[3u8; 33]);
    assert_eq!(decoded, Err(Error::UnsupportedCommitmentType));
    let mut tagged = vec![3u8];
    tagged.extend_from_slice(&[0u8; 32]);
    assert_eq!(Commitment::decode(&tagged), Err(Error::UnsupportedCommitmentType));
    let decoded = Commitment::decode(&[0u8]);
    assert_eq!(decoded, Err(Error::UnsupportedCommitmentType));
    let mut long = vec![0xFEu8];
    long.extend_from_slice(&[0u8; 200]);
    assert_eq!(Commitment::decode(&long), Err(Error::UnsupportedCommitmentType));
}

#[test]
fn nullifier_tag_discipline() {
    let decoded = Nullifier::decode(&[4u8; 40]);
    assert_eq!(decoded, Err(Error::UnsupportedNullifierType));
    let decoded = Nullifier::decode(&[255u8]);
    assert_eq!(decoded, Err(Error::UnsupportedNullifierType));
}

#[test]
fn nullifier_decode_empty_fails() {
    assert_eq!(Nullifier::decode(&[]), Err(Error::FailedToDecode));
}

#[test]
fn empty_transaction_encodes_to_four_zero_bytes() {
    let empty = Transaction { inputs: vec![], outputs: vec![] };
    assert_eq!(empty.encode(), vec![0u8, 0u8, 0u8, 0u8]);
    let decoded = Transaction::decode(&[0u8, 0u8, 0u8, 0u8]).unwrap();
    assert_eq!(decoded, empty);
}

#[test]
fn transaction_preserves_list_order_and_contents() {
    let inputs: Vec<Nullifier> = (0u8..5).map(|i| Nullifier::Private(b32(i))).collect();
    let outputs: Vec<Commitment> = (10u8..13)
        .map(|i| Commitment::Private(PrivateCommitment(b32(i))))
        .collect();
    let transaction = Transaction { inputs: inputs.clone(), outputs: outputs.clone() };
    let decoded = Transaction::decode(&transaction.encode()).unwrap();
    assert_eq!(decoded.inputs.len(), 5);
    assert_eq!(decoded.outputs.len(), 3);
    for (before, after) in inputs.iter().zip(decoded.inputs.iter()) {
        assert_eq!(before, after);
    }
    for (before, after) in outputs.iter().zip(decoded.outputs.iter()) {
        assert_eq!(before, after);
    }
}

#[test]
fn transaction_propagates_element_errors() {
    // One input announced; its tag byte is invalid.
    let bytes = [0u8, 1, 9, 0, 0];
    assert_eq!(Transaction::decode(&bytes), Err(Error::UnsupportedNullifierType));
    // One output announced after zero inputs; its tag byte is invalid.
    let bytes = [0u8, 0, 0, 1, 9];
    assert_eq!(Transaction::decode(&bytes), Err(Error::UnsupportedCommitmentType));
    // One input announced, none present.
    let bytes = [0u8, 1];
    assert_eq!(Transaction::decode(&bytes), Err(Error::FailedToDecode));
    // Counts present, second one truncated.
    let bytes = [0u8, 0, 0];
    assert_eq!(Transaction::decode(&bytes), Err(Error::FailedToDecode));
}

#[test]
fn output_encoding_layout() {
    let mut asset = [0u8; 32];
    asset[31] = 0x01;
    let mut owner = [0u8; 20];
    owner[19] = 0x02;
    let output = Output { amount: amount_1000(), asset, owner };
    let encoded = output.encode();
    assert_eq!(encoded.len(), 84);
    // The first 32 bytes are the amount, 1000, in big-endian form.
    let mut expected_amount = [0u8; 32];
    expected_amount[30] = 0x03;
    expected_amount[31] = 0xE8;
    assert_eq!(&encoded[..32], &expected_amount);
    assert_eq!(&encoded[32..64], &asset);
    assert_eq!(&encoded[64..84], &owner);
}

#[test]
fn commitment_preimage_layout() {
    let output = sample_output();
    let salt = b32(0x66);
    let preimage = output.commitment_preimage(&salt);
    assert_eq!(preimage.len(), 116);
    assert_eq!(&preimage[..84], output.encode().as_slice());
    assert_eq!(&preimage[84..], &salt);

    let commitment = PrivateCommitment(b32(0x67));
    let nullifier_preimage = commitment.nullifier_preimage(&salt);
    assert_eq!(nullifier_preimage.len(), 64);
    assert_eq!(&nullifier_preimage[..32], &commitment.0);
    assert_eq!(&nullifier_preimage[32..], &salt);
}

#[test]
fn commitment_derivation_is_deterministic() {
    let output = sample_output();
    let salt = b32(0x10);
    let first = output.commitment::<Sha256>(&salt).unwrap();
    let second = output.commitment::<Sha256>(&salt).unwrap();
    assert_eq!(first, second);

    // The commitment is the digest of the preimage, not the preimage itself.
    let by_hand: [u8; 32] = Sha256::digest(output.commitment_preimage(&salt)).into();
    assert_eq!(first.0, by_hand);

    // Changing any field or the salt changes the commitment.
    let other_salt = output.commitment::<Sha256>(&b32(0x11)).unwrap();
    assert_ne!(first, other_salt);
    let mut other = sample_output();
    other.amount[0] = 0x80;
    assert_ne!(first, other.commitment::<Sha256>(&salt).unwrap());
    let mut other = sample_output();
    other.asset[0] = 0x80;
    assert_ne!(first, other.commitment::<Sha256>(&salt).unwrap());
    let mut other = sample_output();
    other.owner[0] = 0x80;
    assert_ne!(first, other.commitment::<Sha256>(&salt).unwrap());
}

#[test]
fn nullifier_derivation_chains_on_salt_and_commitment() {
    let commitment = PrivateCommitment(b32(0x42));
    let first = commitment.nullifier::<Sha256>(&b32(1)).unwrap();
    let again = commitment.nullifier::<Sha256>(&b32(1)).unwrap();
    assert_eq!(first, again);

    let by_hand: [u8; 32] = Sha256::digest(commitment.nullifier_preimage(&b32(1))).into();
    assert_eq!(first, by_hand);

    // A different salt, or a different commitment, gives a different nullifier.
    let second = commitment.nullifier::<Sha256>(&b32(2)).unwrap();
    assert_ne!(first, second);
    let other = PrivateCommitment(b32(0x43));
    assert_ne!(first, other.nullifier::<Sha256>(&b32(1)).unwrap());
}

/// A toy symmetric cipher for exercising the encryption boundary.
struct XorCipher {
    key: u8,
}

impl Encryptor for XorCipher {
    fn encrypt(&self, data: &[u8]) -> Result<Vec<u8>, Error> {
        Ok(data.iter().map(|b| b ^ self.key).collect())
    }
}

impl Decryptor for XorCipher {
    fn decrypt(&self, data: &[u8]) -> Result<Vec<u8>, Error> {
        Ok(data.iter().map(|b| b ^ self.key).collect())
    }
}

#[test]
fn encrypt_then_decrypt_through_placeholder_round_trips() {
    let cipher = XorCipher { key: 0x5F };
    let value = UnencryptedOutput { output: sample_output(), salt: b32(0x21) };

    let ciphertext = value.encrypt(&cipher).unwrap();
    assert_eq!(ciphertext.len(), 116);
    assert_ne!(ciphertext, value.encode());

    // Decrypt operates on self's own encoding, so received ciphertext is
    // first re-decoded into a placeholder value, then decrypted.
    let placeholder = UnencryptedOutput::decode(&ciphertext).unwrap();
    let recovered = placeholder.decrypt(&cipher).unwrap();
    assert_eq!(recovered, value);
}

#[test]
fn large_transaction_round_trips() {
    let inputs: Vec<Nullifier> = (0u32..1000)
        .map(|i| Nullifier::Public(OutputId { txhash: b32((i % 256) as u8), index: i }))
        .collect();
    let outputs: Vec<Commitment> = (0u32..800)
        .map(|i| Commitment::Private(PrivateCommitment(b32((i % 251) as u8))))
        .collect();
    let transaction = Transaction { inputs, outputs };
    let encoded = transaction.encode();
    assert_eq!(encoded.len(), 2 + 1000 * 37 + 2 + 800 * 33);
    assert_eq!(transaction.byte_length(), 1000 * 37 + 800 * 33);
    let decoded = Transaction::decode(&encoded).unwrap();
    assert_eq!(transaction, decoded);
}

#[test]
fn empty_transaction_reports_zero_byte_length() {
    let empty = Transaction { inputs: vec![], outputs: vec![] };
    assert_eq!(empty.byte_length(), 0);
    assert_eq!(empty.encode().len(), 4);
}
