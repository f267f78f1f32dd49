//! Transparent outputs and the commitments that hide or state them.

use vstd::prelude::*;

use crate::codec::{
    read_array, push_bytes, ByteLength, Decodeable, Encodeable,
};
use crate::error::Error;

verus! {

broadcast use vstd::array::group_array_axioms;

/// Tag byte selecting the private variant of a commitment or nullifier.
pub const TAG_PRIVATE: u8 = 1;

/// Tag byte selecting the public variant of a commitment or nullifier.
pub const TAG_PUBLIC: u8 = 2;

/// The encoded size of an [`Output`]: 32 (amount) + 32 (asset) + 20 (owner).
pub const OUTPUT_BYTE_LENGTH: usize = 84;

/// A transparent unspent output.
#[derive(Debug, Clone, PartialEq, Eq)]
pub struct Output {
    /// The amount of the output, as a 256-bit big-endian unsigned integer.
    pub amount: [u8; 32],
    /// The 256-bit asset identifier.
    pub asset: [u8; 32],
    /// The owner's 160-bit address.
    pub owner: [u8; 20],
}

/// The mathematical model of an [`Output`]: its three fields as byte sequences.
pub struct OutputView {
    /// The amount, big-endian.
    pub amount: Seq<u8>,
    /// The asset identifier.
    pub asset: Seq<u8>,
    /// The owner's address.
    pub owner: Seq<u8>,
}

impl View for Output {
    type V = OutputView;

    open spec fn view(&self) -> OutputView {
        OutputView { amount: self.amount@, asset: self.asset@, owner: self.owner@ }
    }
}

/// Whether an output model has the fixed field widths of the wire format.
pub open spec fn output_wf(v: OutputView) -> bool {
    v.amount.len() == 32 && v.asset.len() == 32 && v.owner.len() == 20
}

/// The canonical encoding of an output: amount, then asset, then owner.
pub open spec fn output_enc(v: OutputView) -> Seq<u8> {
    v.amount + v.asset + v.owner
}

/// What decoding an output from the prefix of `bytes` yields.
pub open spec fn output_dec(bytes: Seq<u8>) -> Result<OutputView, Error> {
    if bytes.len() < 84 {
        Err(Error::FailedToDecode)
    } else {
        Ok(OutputView {
            amount: bytes.subrange(0, 32),
            asset: bytes.subrange(32, 64),
            owner: bytes.subrange(64, 84),
        })
    }
}

impl ByteLength for Output {
    open spec fn length_wf(&self) -> bool {
        true
    }

    open spec fn spec_byte_length(&self) -> nat {
        84
    }

    fn byte_length(&self) -> usize {
        OUTPUT_BYTE_LENGTH
    }
}

impl Encodeable for Output {
    open spec fn enc_wf(&self) -> bool {
        true
    }

    open spec fn spec_encode(&self) -> Seq<u8> {
        output_enc(self@)
    }

    fn encode(&self) -> Vec<u8> {
        let mut bytes: Vec<u8> = Vec::new();
        push_bytes(&mut bytes, self.amount.as_slice());
        push_bytes(&mut bytes, self.asset.as_slice());
        push_bytes(&mut bytes, self.owner.as_slice());
        proof {
            assert(bytes@ =~= output_enc(self@));
        }
        bytes
    }
}

impl Decodeable for Output {
    open spec fn spec_decode(bytes: Seq<u8>) -> Result<OutputView, Error> {
        output_dec(bytes)
    }

    fn decode(bytes: &[u8]) -> Result<Self, Error> {
        if bytes.len() < OUTPUT_BYTE_LENGTH {
            return Err(Error::FailedToDecode);
        }
        let amount = read_array::<32>(bytes, 0);
        let asset = read_array::<32>(bytes, 32);
        let owner = read_array::<20>(bytes, 64);
        Ok(Output { amount, asset, owner })
    }
}

/// An output's encoding is exactly as long as it reports. (Length consistency.)
pub proof fn lemma_output_enc_length(v: OutputView)
    requires
        output_wf(v),
    ensures
        output_enc(v).len() == 84,
{
}

/// Decoding an encoded output, with any trailing bytes, recovers the output.
/// (Round trip.)
pub proof fn lemma_output_round_trip(v: OutputView, extra: Seq<u8>)
    requires
        output_wf(v),
    ensures
        output_dec(output_enc(v) + extra) == Ok::<OutputView, Error>(v),
{
    let bytes = output_enc(v) + extra;
    assert(bytes.subrange(0, 32) =~= v.amount);
    assert(bytes.subrange(32, 64) =~= v.asset);
    assert(bytes.subrange(64, 84) =~= v.owner);
}

/// Decoding an output from fewer than 84 bytes fails. (Truncation.)
pub proof fn lemma_output_truncation(bytes: Seq<u8>)
    requires
        bytes.len() < 84,
    ensures
        output_dec(bytes) == Err::<OutputView, Error>(Error::FailedToDecode),
{
}

/// A private commitment: a 256-bit hash that hides an output.
#[derive(Debug, Clone, PartialEq, Eq)]
pub struct PrivateCommitment(pub [u8; 32]);

impl View for PrivateCommitment {
    type V = Seq<u8>;

    open spec fn view(&self) -> Seq<u8> {
        self.0@
    }
}

/// Relies on `digest::Digest` (`new`, `update`, `finalize`): feeds `data` to a
/// fresh hasher of `D` and returns its digest, or `None` when `D`'s output
/// width is not the 32 bytes the derivations are defined for.
#[verifier::external_body]
fn digest32<D: digest::Digest>(data: &Vec<u8>) -> Option<[u8; 32]> {
    let mut hasher = D::new();
    digest::Digest::update(&mut hasher, data.as_slice());
    let out = hasher.finalize();
    let wide: Result<[u8; 32], _> = out.as_slice().try_into();
    wide.ok()
}

impl Output {
    /// The exact byte sequence hashed to commit to this output under `salt`:
    /// the big-endian amount, the asset id, the owner address, then the salt.
    pub fn commitment_preimage(&self, salt: &[u8; 32]) -> (r: Vec<u8>)
        ensures
            r@ == self@.amount + self@.asset + self@.owner + salt@,
    {
        let mut bytes: Vec<u8> = Vec::new();
        push_bytes(&mut bytes, self.amount.as_slice());
        push_bytes(&mut bytes, self.asset.as_slice());
        push_bytes(&mut bytes, self.owner.as_slice());
        push_bytes(&mut bytes, salt.as_slice());
        proof {
            assert(bytes@ =~= self@.amount + self@.asset + self@.owner + salt@);
        }
        bytes
    }

    /// Computes the private commitment of this output under `salt`, by
    /// hashing the commitment preimage with the digest capability `D`.
    ///
    /// The derivation is only defined for digests with a 32-byte output;
    /// a capability of any other width is rejected with `None`.
    pub fn commitment<D: digest::Digest>(&self, salt: &[u8; 32]) -> Option<PrivateCommitment> {
        match digest32::<D>(&self.commitment_preimage(salt)) {
            Some(hash) => Some(PrivateCommitment(hash)),
            None => None,
        }
    }
}

impl PrivateCommitment {
    /// The exact byte sequence hashed to derive this commitment's nullifier
    /// under `salt`: the commitment hash, then the salt.
    pub fn nullifier_preimage(&self, salt: &[u8; 32]) -> (r: Vec<u8>)
        ensures
            r@ == self@ + salt@,
    {
        let mut bytes: Vec<u8> = Vec::new();
        push_bytes(&mut bytes, self.0.as_slice());
        push_bytes(&mut bytes, salt.as_slice());
        proof {
            assert(bytes@ =~= self@ + salt@);
        }
        bytes
    }

    /// Computes the nullifier hash of this private commitment under `salt`,
    /// by hashing the nullifier preimage with the digest capability `D`.
    ///
    /// The derivation is only defined for digests with a 32-byte output;
    /// a capability of any other width is rejected with `None`.
    pub fn nullifier<D: digest::Digest>(&self, salt: &[u8; 32]) -> Option<[u8; 32]> {
        digest32::<D>(&self.nullifier_preimage(salt))
    }
}

/// A commitment to a new output: either a hiding hash or a plain output.
#[derive(Debug, Clone, PartialEq, Eq)]
pub enum Commitment {
    /// A private commitment, represented by a 256-bit hash.
    Private(PrivateCommitment),
    /// A public commitment, stating the output in the clear.
    Public(Output),
}

/// The mathematical model of a [`Commitment`].
pub enum CommitmentView {
    /// A private commitment's hash bytes.
    Private(Seq<u8>),
    /// A public commitment's output model.
    Public(OutputView),
}

impl View for Commitment {
    type V = CommitmentView;

    open spec fn view(&self) -> CommitmentView {
        match self {
            Commitment::Private(c) => CommitmentView::Private(c@),
            Commitment::Public(o) => CommitmentView::Public(o@),
        }
    }
}

/// Whether a commitment model has the fixed field widths of the wire format.
pub open spec fn commitment_wf(v: CommitmentView) -> bool {
    match v {
        CommitmentView::Private(h) => h.len() == 32,
        CommitmentView::Public(o) => output_wf(o),
    }
}

/// The encoded length of a commitment: a tag byte plus its payload.
pub open spec fn commitment_len(v: CommitmentView) -> nat {
    match v {
        CommitmentView::Private(_) => 33,
        CommitmentView::Public(_) => 85,
    }
}

/// The canonical encoding of a commitment: its tag byte, then its payload.
pub open spec fn commitment_enc(v: CommitmentView) -> Seq<u8> {
    match v {
        CommitmentView::Private(h) => seq![TAG_PRIVATE] + h,
        CommitmentView::Public(o) => seq![TAG_PUBLIC] + output_enc(o),
    }
}

/// What decoding a commitment from the prefix of `bytes` yields.
pub open spec fn commitment_dec(bytes: Seq<u8>) -> Result<CommitmentView, Error> {
    if bytes.len() == 0 {
        Err(Error::FailedToDecode)
    } else if bytes[0] == TAG_PRIVATE {
        if bytes.len() < 33 {
            Err(Error::FailedToDecode)
        } else {
            Ok(CommitmentView::Private(bytes.subrange(1, 33)))
        }
    } else if bytes[0] == TAG_PUBLIC {
        match output_dec(bytes.skip(1)) {
            Ok(o) => Ok(CommitmentView::Public(o)),
            Err(e) => Err(e),
        }
    } else {
        Err(Error::UnsupportedCommitmentType)
    }
}

impl ByteLength for Commitment {
    open spec fn length_wf(&self) -> bool {
        true
    }

    open spec fn spec_byte_length(&self) -> nat {
        commitment_len(self@)
    }

    fn byte_length(&self) -> usize {
        match self {
            Commitment::Private(_) => 33,
            Commitment::Public(_) => 85,
        }
    }
}

impl Encodeable for Commitment {
    open spec fn enc_wf(&self) -> bool {
        true
    }

    open spec fn spec_encode(&self) -> Seq<u8> {
        commitment_enc(self@)
    }

    fn encode(&self) -> Vec<u8> {
        let mut bytes: Vec<u8> = Vec::new();
        match self {
            Commitment::Private(c) => {
                bytes.push(TAG_PRIVATE);
                push_bytes(&mut bytes, c.0.as_slice());
            },
            Commitment::Public(o) => {
                bytes.push(TAG_PUBLIC);
                push_bytes(&mut bytes, o.amount.as_slice());
                push_bytes(&mut bytes, o.asset.as_slice());
                push_bytes(&mut bytes, o.owner.as_slice());
            },
        }
        proof {
            assert(bytes@ =~= commitment_enc(self@));
        }
        bytes
    }
}

impl Decodeable for Commitment {
    open spec fn spec_decode(bytes: Seq<u8>) -> Result<CommitmentView, Error> {
        commitment_dec(bytes)
    }

    fn decode(bytes: &[u8]) -> Result<Self, Error> {
        if bytes.len() == 0 {
            return Err(Error::FailedToDecode);
        }
        let tag = bytes[0];
        if tag == TAG_PRIVATE {
            if bytes.len() < 33 {
                return Err(Error::FailedToDecode);
            }
            let hash = read_array::<32>(bytes, 1);
            Ok(Commitment::Private(PrivateCommitment(hash)))
        } else if tag == TAG_PUBLIC {
            let rest = vstd::slice::slice_subrange(bytes, 1, bytes.len());
            match Output::decode(rest) {
                Ok(o) => Ok(Commitment::Public(o)),
                Err(e) => Err(e),
            }
        } else {
            Err(Error::UnsupportedCommitmentType)
        }
    }
}

/// A commitment's encoding is exactly as long as it reports.
/// (Length consistency.)
pub proof fn lemma_commitment_enc_length(v: CommitmentView)
    requires
        commitment_wf(v),
    ensures
        commitment_enc(v).len() == commitment_len(v),
{
}

/// Decoding an encoded commitment, with any trailing bytes, recovers the
/// commitment. (Round trip.)
pub proof fn lemma_commitment_round_trip(v: CommitmentView, extra: Seq<u8>)
    requires
        commitment_wf(v),
    ensures
        commitment_dec(commitment_enc(v) + extra) == Ok::<CommitmentView, Error>(v),
{
    let bytes = commitment_enc(v) + extra;
    match v {
        CommitmentView::Private(h) => {
            assert(bytes.subrange(1, 33) =~= h);
        },
        CommitmentView::Public(o) => {
            assert(bytes.skip(1) =~= output_enc(o) + extra);
            lemma_output_round_trip(o, extra);
        },
    }
}

/// Decoding a commitment whose first byte is not a known tag fails with
/// `UnsupportedCommitmentType`, whatever follows. (Tag discipline.)
pub proof fn lemma_commitment_tag_discipline(bytes: Seq<u8>)
    requires
        bytes.len() > 0,
        bytes[0] != TAG_PRIVATE,
        bytes[0] != TAG_PUBLIC,
    ensures
        commitment_dec(bytes) == Err::<CommitmentView, Error>(Error::UnsupportedCommitmentType),
{
}

/// A commitment decoded successfully consumed no more bytes than the buffer
/// holds, and is well formed: the cursor a container advances stays in range.
pub proof fn lemma_commitment_dec_prefix(bytes: Seq<u8>)
    requires
        commitment_dec(bytes) is Ok,
    ensures
        commitment_wf(commitment_dec(bytes)->Ok_0),
        commitment_len(commitment_dec(bytes)->Ok_0) <= bytes.len(),
{
}

/// Decoding a commitment from an empty buffer, or from a correctly tagged
/// buffer shorter than the tag demands, fails with `FailedToDecode`.
/// (Truncation.)
pub proof fn lemma_commitment_truncation(bytes: Seq<u8>)
    requires
        bytes.len() < 33,
        bytes.len() == 0 || bytes[0] == TAG_PRIVATE || bytes[0] == TAG_PUBLIC,
    ensures
        commitment_dec(bytes) == Err::<CommitmentView, Error>(Error::FailedToDecode),
{
}

} // verus!
