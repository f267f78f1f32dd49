//! Output references and the nullifiers that mark them as spent.

use vstd::prelude::*;

use crate::codec::{
    read_array, push_bytes, push_u32_be, u32_from_be, spec_u32_to_be, spec_u32_from_be,
    lemma_u32_be_round_trip, ByteLength, Decodeable, Encodeable,
};
use crate::commitment::{TAG_PRIVATE, TAG_PUBLIC};
use crate::error::Error;

verus! {

broadcast use vstd::array::group_array_axioms;

/// The encoded size of an [`OutputId`]: 32 (txhash) + 4 (index).
pub const OUTPUT_ID_BYTE_LENGTH: usize = 36;

/// The unique identifier of an output within a transaction.
#[derive(Debug, Clone, PartialEq, Eq)]
pub struct OutputId {
    /// The hash of the transaction containing this output.
    pub txhash: [u8; 32],
    /// The index of this output within that transaction's output list.
    pub index: u32,
}

/// The mathematical model of an [`OutputId`].
pub struct OutputIdView {
    /// The transaction hash.
    pub txhash: Seq<u8>,
    /// The output's index within the transaction.
    pub index: u32,
}

impl View for OutputId {
    type V = OutputIdView;

    open spec fn view(&self) -> OutputIdView {
        OutputIdView { txhash: self.txhash@, index: self.index }
    }
}

/// Whether an output-id model has the fixed field widths of the wire format.
pub open spec fn output_id_wf(v: OutputIdView) -> bool {
    v.txhash.len() == 32
}

/// The canonical encoding of an output id: txhash, then big-endian index.
pub open spec fn output_id_enc(v: OutputIdView) -> Seq<u8> {
    v.txhash + spec_u32_to_be(v.index)
}

/// What decoding an output id from the prefix of `bytes` yields.
pub open spec fn output_id_dec(bytes: Seq<u8>) -> Result<OutputIdView, Error> {
    if bytes.len() < 36 {
        Err(Error::FailedToDecode)
    } else {
        Ok(OutputIdView {
            txhash: bytes.subrange(0, 32),
            index: spec_u32_from_be(bytes.subrange(32, 36)),
        })
    }
}

impl ByteLength for OutputId {
    open spec fn length_wf(&self) -> bool {
        true
    }

    open spec fn spec_byte_length(&self) -> nat {
        36
    }

    fn byte_length(&self) -> usize {
        OUTPUT_ID_BYTE_LENGTH
    }
}

impl Encodeable for OutputId {
    open spec fn enc_wf(&self) -> bool {
        true
    }

    open spec fn spec_encode(&self) -> Seq<u8> {
        output_id_enc(self@)
    }

    fn encode(&self) -> Vec<u8> {
        let mut bytes: Vec<u8> = Vec::new();
        push_bytes(&mut bytes, self.txhash.as_slice());
        push_u32_be(&mut bytes, self.index);
        bytes
    }
}

impl Decodeable for OutputId {
    open spec fn spec_decode(bytes: Seq<u8>) -> Result<OutputIdView, Error> {
        output_id_dec(bytes)
    }

    fn decode(bytes: &[u8]) -> Result<Self, Error> {
        if bytes.len() < OUTPUT_ID_BYTE_LENGTH {
            return Err(Error::FailedToDecode);
        }
        let txhash = read_array::<32>(bytes, 0);
        let index = u32_from_be(bytes[32], bytes[33], bytes[34], bytes[35]);
        proof {
            assert(bytes@.subrange(32, 36) =~= seq![bytes@[32], bytes@[33], bytes@[34], bytes@[35]]);
        }
        Ok(OutputId { txhash, index })
    }
}

/// An output id's encoding is exactly as long as it reports.
/// (Length consistency.)
pub proof fn lemma_output_id_enc_length(v: OutputIdView)
    requires
        output_id_wf(v),
    ensures
        output_id_enc(v).len() == 36,
{
}

/// Decoding an encoded output id, with any trailing bytes, recovers the
/// output id. (Round trip.)
pub proof fn lemma_output_id_round_trip(v: OutputIdView, extra: Seq<u8>)
    requires
        output_id_wf(v),
    ensures
        output_id_dec(output_id_enc(v) + extra) == Ok::<OutputIdView, Error>(v),
{
    let bytes = output_id_enc(v) + extra;
    lemma_u32_be_round_trip(v.index);
    assert(bytes.subrange(0, 32) =~= v.txhash);
    assert(bytes.subrange(32, 36) =~= spec_u32_to_be(v.index));
}

/// Decoding an output id from fewer than 36 bytes fails. (Truncation.)
pub proof fn lemma_output_id_truncation(bytes: Seq<u8>)
    requires
        bytes.len() < 36,
    ensures
        output_id_dec(bytes) == Err::<OutputIdView, Error>(Error::FailedToDecode),
{
}

/// A nullifier marking a previously committed output as spent: either a
/// one-way derivative of its commitment, or a plain reference to it.
#[derive(Debug, Clone, PartialEq, Eq)]
pub enum Nullifier {
    /// A private nullifier, represented by a 256-bit hash.
    Private([u8; 32]),
    /// A public nullifier, naming the spent output in the clear.
    Public(OutputId),
}

/// The mathematical model of a [`Nullifier`].
pub enum NullifierView {
    /// A private nullifier's hash bytes.
    Private(Seq<u8>),
    /// A public nullifier's output-id model.
    Public(OutputIdView),
}

impl View for Nullifier {
    type V = NullifierView;

    open spec fn view(&self) -> NullifierView {
        match self {
            Nullifier::Private(h) => NullifierView::Private(h@),
            Nullifier::Public(id) => NullifierView::Public(id@),
        }
    }
}

/// Whether a nullifier model has the fixed field widths of the wire format.
pub open spec fn nullifier_wf(v: NullifierView) -> bool {
    match v {
        NullifierView::Private(h) => h.len() == 32,
        NullifierView::Public(id) => output_id_wf(id),
    }
}

/// The encoded length of a nullifier: a tag byte plus its payload.
pub open spec fn nullifier_len(v: NullifierView) -> nat {
    match v {
        NullifierView::Private(_) => 33,
        NullifierView::Public(_) => 37,
    }
}

/// The canonical encoding of a nullifier: its tag byte, then its payload.
pub open spec fn nullifier_enc(v: NullifierView) -> Seq<u8> {
    match v {
        NullifierView::Private(h) => seq![TAG_PRIVATE] + h,
        NullifierView::Public(id) => seq![TAG_PUBLIC] + output_id_enc(id),
    }
}

/// What decoding a nullifier from the prefix of `bytes` yields.
pub open spec fn nullifier_dec(bytes: Seq<u8>) -> Result<NullifierView, Error> {
    if bytes.len() == 0 {
        Err(Error::FailedToDecode)
    } else if bytes[0] == TAG_PRIVATE {
        if bytes.len() < 33 {
            Err(Error::FailedToDecode)
        } else {
            Ok(NullifierView::Private(bytes.subrange(1, 33)))
        }
    } else if bytes[0] == TAG_PUBLIC {
        match output_id_dec(bytes.skip(1)) {
            Ok(id) => Ok(NullifierView::Public(id)),
            Err(e) => Err(e),
        }
    } else {
        Err(Error::UnsupportedNullifierType)
    }
}

impl ByteLength for Nullifier {
    open spec fn length_wf(&self) -> bool {
        true
    }

    open spec fn spec_byte_length(&self) -> nat {
        nullifier_len(self@)
    }

    fn byte_length(&self) -> usize {
        match self {
            Nullifier::Private(_) => 33,
            Nullifier::Public(_) => 37,
        }
    }
}

impl Encodeable for Nullifier {
    open spec fn enc_wf(&self) -> bool {
        true
    }

    open spec fn spec_encode(&self) -> Seq<u8> {
        nullifier_enc(self@)
    }

    fn encode(&self) -> Vec<u8> {
        let mut bytes: Vec<u8> = Vec::new();
        match self {
            Nullifier::Private(h) => {
                bytes.push(TAG_PRIVATE);
                push_bytes(&mut bytes, h.as_slice());
            },
            Nullifier::Public(id) => {
                bytes.push(TAG_PUBLIC);
                push_bytes(&mut bytes, id.txhash.as_slice());
                push_u32_be(&mut bytes, id.index);
            },
        }
        proof {
            assert(bytes@ =~= nullifier_enc(self@));
        }
        bytes
    }
}

impl Decodeable for Nullifier {
    open spec fn spec_decode(bytes: Seq<u8>) -> Result<NullifierView, Error> {
        nullifier_dec(bytes)
    }

    fn decode(bytes: &[u8]) -> Result<Self, Error> {
        if bytes.len() == 0 {
            return Err(Error::FailedToDecode);
        }
        let tag = bytes[0];
        if tag == TAG_PRIVATE {
            if bytes.len() < 33 {
                return Err(Error::FailedToDecode);
            }
            let hash = read_array::<32>(bytes, 1);
            Ok(Nullifier::Private(hash))
        } else if tag == TAG_PUBLIC {
            let rest = vstd::slice::slice_subrange(bytes, 1, bytes.len());
            match OutputId::decode(rest) {
                Ok(id) => Ok(Nullifier::Public(id)),
                Err(e) => Err(e),
            }
        } else {
            Err(Error::UnsupportedNullifierType)
        }
    }
}

/// A nullifier's encoding is exactly as long as it reports.
/// (Length consistency.)
pub proof fn lemma_nullifier_enc_length(v: NullifierView)
    requires
        nullifier_wf(v),
    ensures
        nullifier_enc(v).len() == nullifier_len(v),
{
}

/// Decoding an encoded nullifier, with any trailing bytes, recovers the
/// nullifier. (Round trip.)
pub proof fn lemma_nullifier_round_trip(v: NullifierView, extra: Seq<u8>)
    requires
        nullifier_wf(v),
    ensures
        nullifier_dec(nullifier_enc(v) + extra) == Ok::<NullifierView, Error>(v),
{
    let bytes = nullifier_enc(v) + extra;
    match v {
        NullifierView::Private(h) => {
            assert(bytes.subrange(1, 33) =~= h);
        },
        NullifierView::Public(id) => {
            assert(bytes.skip(1) =~= output_id_enc(id) + extra);
            lemma_output_id_round_trip(id, extra);
        },
    }
}

/// Decoding a nullifier whose first byte is not a known tag fails with
/// `UnsupportedNullifierType`, whatever follows. (Tag discipline.)
pub proof fn lemma_nullifier_tag_discipline(bytes: Seq<u8>)
    requires
        bytes.len() > 0,
        bytes[0] != TAG_PRIVATE,
        bytes[0] != TAG_PUBLIC,
    ensures
        nullifier_dec(bytes) == Err::<NullifierView, Error>(Error::UnsupportedNullifierType),
{
}

/// Decoding a nullifier from an empty buffer, or from a correctly tagged
/// buffer shorter than the tag demands, fails with `FailedToDecode`.
/// (Truncation.)
pub proof fn lemma_nullifier_truncation(bytes: Seq<u8>)
    requires
        bytes.len() < 33,
        bytes.len() == 0 || bytes[0] == TAG_PRIVATE || bytes[0] == TAG_PUBLIC,
    ensures
        nullifier_dec(bytes) == Err::<NullifierView, Error>(Error::FailedToDecode),
{
}

/// A nullifier decoded successfully consumed no more bytes than the buffer
/// holds, and is well formed: the cursor a container advances stays in range.
pub proof fn lemma_nullifier_dec_prefix(bytes: Seq<u8>)
    requires
        nullifier_dec(bytes) is Ok,
    ensures
        nullifier_wf(nullifier_dec(bytes)->Ok_0),
        nullifier_len(nullifier_dec(bytes)->Ok_0) <= bytes.len(),
{
}

} // verus!
