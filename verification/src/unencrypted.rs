//! An output paired with its commitment salt, and the encryption boundary
//! used to hand that pair to its intended owner.

use vstd::prelude::*;

use crate::codec::{read_array, push_bytes, ByteLength, Decodeable, Encodeable};
use crate::commitment::{output_dec, output_enc, output_wf, Output, OutputView};
use crate::error::Error;

verus! {

broadcast use vstd::array::group_array_axioms;

/// The encoded size of an [`UnencryptedOutput`]: 84 (output) + 32 (salt).
pub const UNENCRYPTED_OUTPUT_BYTE_LENGTH: usize = 116;

/// An encryption capability: turns plaintext bytes into ciphertext bytes.
///
/// Supplied from outside the core; the core places no requirement on it
/// beyond being self-consistent with the matching [`Decryptor`].
pub trait Encryptor {
    /// Encrypts `data`.
    fn encrypt(&self, data: &[u8]) -> Result<Vec<u8>, Error>;
}

/// A decryption capability: turns ciphertext bytes back into plaintext.
///
/// Supplied from outside the core, matching some [`Encryptor`].
pub trait Decryptor {
    /// Decrypts `data`.
    fn decrypt(&self, data: &[u8]) -> Result<Vec<u8>, Error>;
}

/// An output together with the salt used to commit to it.
///
/// The salt must be unpredictable: it is what makes the commitment derived
/// from the output hiding.
#[derive(Debug, Clone, PartialEq, Eq)]
pub struct UnencryptedOutput {
    /// The output being committed to.
    pub output: Output,
    /// The 256-bit blinding salt.
    pub salt: [u8; 32],
}

/// The mathematical model of an [`UnencryptedOutput`].
pub struct UnencryptedOutputView {
    /// The output's model.
    pub output: OutputView,
    /// The salt bytes.
    pub salt: Seq<u8>,
}

impl View for UnencryptedOutput {
    type V = UnencryptedOutputView;

    open spec fn view(&self) -> UnencryptedOutputView {
        UnencryptedOutputView { output: self.output@, salt: self.salt@ }
    }
}

/// Whether the model has the fixed field widths of the wire format.
pub open spec fn unencrypted_output_wf(v: UnencryptedOutputView) -> bool {
    output_wf(v.output) && v.salt.len() == 32
}

/// The canonical encoding: the output's encoding, then the salt.
pub open spec fn unencrypted_output_enc(v: UnencryptedOutputView) -> Seq<u8> {
    output_enc(v.output) + v.salt
}

/// What decoding an unencrypted output from the prefix of `bytes` yields.
pub open spec fn unencrypted_output_dec(bytes: Seq<u8>) -> Result<UnencryptedOutputView, Error> {
    match output_dec(bytes) {
        Err(e) => Err(e),
        Ok(o) => if bytes.len() < 116 {
            Err(Error::FailedToDecode)
        } else {
            Ok(UnencryptedOutputView { output: o, salt: bytes.subrange(84, 116) })
        },
    }
}

impl ByteLength for UnencryptedOutput {
    open spec fn length_wf(&self) -> bool {
        true
    }

    open spec fn spec_byte_length(&self) -> nat {
        116
    }

    fn byte_length(&self) -> usize {
        UNENCRYPTED_OUTPUT_BYTE_LENGTH
    }
}

impl Encodeable for UnencryptedOutput {
    open spec fn enc_wf(&self) -> bool {
        true
    }

    open spec fn spec_encode(&self) -> Seq<u8> {
        unencrypted_output_enc(self@)
    }

    fn encode(&self) -> Vec<u8> {
        let mut bytes: Vec<u8> = Vec::new();
        push_bytes(&mut bytes, self.output.amount.as_slice());
        push_bytes(&mut bytes, self.output.asset.as_slice());
        push_bytes(&mut bytes, self.output.owner.as_slice());
        push_bytes(&mut bytes, self.salt.as_slice());
        proof {
            assert(bytes@ =~= unencrypted_output_enc(self@));
        }
        bytes
    }
}

impl Decodeable for UnencryptedOutput {
    open spec fn spec_decode(bytes: Seq<u8>) -> Result<UnencryptedOutputView, Error> {
        unencrypted_output_dec(bytes)
    }

    fn decode(bytes: &[u8]) -> Result<Self, Error> {
        if bytes.len() < UNENCRYPTED_OUTPUT_BYTE_LENGTH {
            return Err(Error::FailedToDecode);
        }
        let output = Output { amount: read_array::<32>(bytes, 0), asset: read_array::<32>(
            bytes,
            32,
        ), owner: read_array::<20>(bytes, 64) };
        let salt = read_array::<32>(bytes, 84);
        Ok(UnencryptedOutput { output, salt })
    }
}

impl UnencryptedOutput {
    /// Encrypts this value's canonical encoding with the given capability
    /// and returns whatever the capability produced.
    pub fn encrypt<E: Encryptor>(&self, encryptor: &E) -> Result<Vec<u8>, Error> {
        let bytes = self.encode();
        encryptor.encrypt(bytes.as_slice())
    }

    /// Runs the given capability on this value's *current* encoding and
    /// re-decodes the capability's result. Decrypting externally received
    /// ciphertext therefore requires constructing a placeholder value first
    /// and storing the ciphertext nowhere: the capability is handed this
    /// value's own encoding.
    pub fn decrypt<D: Decryptor>(&self, decryptor: &D) -> (r: Result<UnencryptedOutput, Error>)
        ensures
            (match r {
                Ok(u) => unencrypted_output_wf(u@) && (exists|b: Seq<u8>|
                    unencrypted_output_dec(b) == Ok::<UnencryptedOutputView, Error>(u@)),
                Err(_) => true,
            }),
    {
        let bytes = self.encode();
        match decryptor.decrypt(bytes.as_slice()) {
            Ok(plain) => match UnencryptedOutput::decode(plain.as_slice()) {
                Ok(u) => {
                    proof {
                        assert(unencrypted_output_dec(plain@) == Ok::<
                            UnencryptedOutputView,
                            Error,
                        >(u@));
                    }
                    Ok(u)
                },
                Err(e) => Err(e),
            },
            Err(e) => Err(e),
        }
    }
}

/// An unencrypted output's encoding is exactly as long as it reports.
/// (Length consistency.)
pub proof fn lemma_unencrypted_output_enc_length(v: UnencryptedOutputView)
    requires
        unencrypted_output_wf(v),
    ensures
        unencrypted_output_enc(v).len() == 116,
{
}

/// Decoding an encoded unencrypted output, with any trailing bytes, recovers
/// it. (Round trip.)
pub proof fn lemma_unencrypted_output_round_trip(v: UnencryptedOutputView, extra: Seq<u8>)
    requires
        unencrypted_output_wf(v),
    ensures
        unencrypted_output_dec(unencrypted_output_enc(v) + extra) == Ok::<
            UnencryptedOutputView,
            Error,
        >(v),
{
    let bytes = unencrypted_output_enc(v) + extra;
    crate::commitment::lemma_output_round_trip(v.output, v.salt + extra);
    assert(bytes =~= output_enc(v.output) + (v.salt + extra));
    assert(bytes.subrange(84, 116) =~= v.salt);
    assert(v == UnencryptedOutputView { output: v.output, salt: v.salt });
}

/// Decoding an unencrypted output from fewer than 116 bytes fails.
/// (Truncation.)
pub proof fn lemma_unencrypted_output_truncation(bytes: Seq<u8>)
    requires
        bytes.len() < 116,
    ensures
        unencrypted_output_dec(bytes) == Err::<UnencryptedOutputView, Error>(
            Error::FailedToDecode,
        ),
{
}

} // verus!
