//! The transaction container: ordered lists of spends and creates, parsed
//! with a cursor that each element's reported byte length advances.

use vstd::prelude::*;

use crate::codec::{
    push_u16_be, u16_from_be, spec_u16_to_be, spec_u16_from_be, lemma_u16_be_round_trip,
    ByteLength, Decodeable, Encodeable,
};
use crate::commitment::{
    commitment_dec, commitment_enc, commitment_len, commitment_wf, lemma_commitment_dec_prefix,
    lemma_commitment_enc_length, lemma_commitment_round_trip, Commitment, CommitmentView,
};
use crate::error::Error;
use crate::nullifier::{
    lemma_nullifier_dec_prefix, lemma_nullifier_enc_length, lemma_nullifier_round_trip,
    nullifier_dec, nullifier_enc, nullifier_len, nullifier_wf, Nullifier, NullifierView,
};

verus! {

/// The largest number of elements either of a transaction's lists may hold:
/// each list is prefixed by a 16-bit count on the wire.
pub const MAX_LIST_LEN: usize = 65535;

/// A transaction: the outputs it spends and the outputs it creates.
#[derive(Debug, Clone, PartialEq, Eq)]
pub struct Transaction {
    /// The spent outputs, as nullifiers, in wire order.
    pub inputs: Vec<Nullifier>,
    /// The created outputs, as commitments, in wire order.
    pub outputs: Vec<Commitment>,
}

/// The mathematical model of a [`Transaction`].
pub struct TransactionView {
    /// The models of the inputs, in wire order.
    pub inputs: Seq<NullifierView>,
    /// The models of the outputs, in wire order.
    pub outputs: Seq<CommitmentView>,
}

/// The models of a sequence of nullifiers, element by element.
pub open spec fn nullifier_views(s: Seq<Nullifier>) -> Seq<NullifierView> {
    s.map_values(|x: Nullifier| x@)
}

/// The models of a sequence of commitments, element by element.
pub open spec fn commitment_views(s: Seq<Commitment>) -> Seq<CommitmentView> {
    s.map_values(|x: Commitment| x@)
}

impl View for Transaction {
    type V = TransactionView;

    open spec fn view(&self) -> TransactionView {
        TransactionView {
            inputs: nullifier_views(self.inputs@),
            outputs: commitment_views(self.outputs@),
        }
    }
}

/// Whether a transaction model is within the wire format's limits: each list
/// fits its 16-bit count and every element is well formed.
pub open spec fn transaction_wf(v: TransactionView) -> bool {
    &&& v.inputs.len() <= MAX_LIST_LEN
    &&& v.outputs.len() <= MAX_LIST_LEN
    &&& (forall|i: int| 0 <= i < v.inputs.len() ==> nullifier_wf(#[trigger] v.inputs[i]))
    &&& (forall|i: int| 0 <= i < v.outputs.len() ==> commitment_wf(#[trigger] v.outputs[i]))
}

/// The concatenation of the encodings of a list of nullifiers, in order.
pub open spec fn nullifier_list_enc(s: Seq<NullifierView>) -> Seq<u8>
    decreases s.len(),
{
    if s.len() == 0 {
        Seq::empty()
    } else {
        nullifier_enc(s[0]) + nullifier_list_enc(s.skip(1))
    }
}

/// The sum of the reported byte lengths of a list of nullifiers.
pub open spec fn nullifier_list_len(s: Seq<NullifierView>) -> nat
    decreases s.len(),
{
    if s.len() == 0 {
        0
    } else {
        nullifier_len(s[0]) + nullifier_list_len(s.skip(1))
    }
}

/// The concatenation of the encodings of a list of commitments, in order.
pub open spec fn commitment_list_enc(s: Seq<CommitmentView>) -> Seq<u8>
    decreases s.len(),
{
    if s.len() == 0 {
        Seq::empty()
    } else {
        commitment_enc(s[0]) + commitment_list_enc(s.skip(1))
    }
}

/// The sum of the reported byte lengths of a list of commitments.
pub open spec fn commitment_list_len(s: Seq<CommitmentView>) -> nat
    decreases s.len(),
{
    if s.len() == 0 {
        0
    } else {
        commitment_len(s[0]) + commitment_list_len(s.skip(1))
    }
}

/// What decoding `n` consecutive nullifiers from the prefix of `bytes`
/// yields: the elements and the number of bytes they consumed.
pub open spec fn nullifier_list_dec(bytes: Seq<u8>, n: nat) -> Result<
    (Seq<NullifierView>, nat),
    Error,
>
    decreases n,
{
    if n == 0 {
        Ok((Seq::empty(), 0))
    } else {
        match nullifier_dec(bytes) {
            Err(e) => Err(e),
            Ok(v) => match nullifier_list_dec(
                bytes.skip(nullifier_len(v) as int),
                (n - 1) as nat,
            ) {
                Err(e) => Err(e),
                Ok(p) => Ok((seq![v] + p.0, nullifier_len(v) + p.1)),
            },
        }
    }
}

/// What decoding `n` consecutive commitments from the prefix of `bytes`
/// yields: the elements and the number of bytes they consumed.
pub open spec fn commitment_list_dec(bytes: Seq<u8>, n: nat) -> Result<
    (Seq<CommitmentView>, nat),
    Error,
>
    decreases n,
{
    if n == 0 {
        Ok((Seq::empty(), 0))
    } else {
        match commitment_dec(bytes) {
            Err(e) => Err(e),
            Ok(v) => match commitment_list_dec(
                bytes.skip(commitment_len(v) as int),
                (n - 1) as nat,
            ) {
                Err(e) => Err(e),
                Ok(p) => Ok((seq![v] + p.0, commitment_len(v) + p.1)),
            },
        }
    }
}

/// The canonical encoding of a transaction: the 16-bit input count, the
/// inputs, the 16-bit output count, then the outputs.
pub open spec fn transaction_enc(v: TransactionView) -> Seq<u8> {
    spec_u16_to_be(v.inputs.len() as u16) + nullifier_list_enc(v.inputs)
        + spec_u16_to_be(v.outputs.len() as u16) + commitment_list_enc(v.outputs)
}

/// The reported byte length of a transaction: the sum of its elements'
/// lengths. The two 2-byte count prefixes written by the encoding are
/// deliberately not included, for compatibility with existing consumers of
/// the wire format; [`lemma_transaction_enc_length`] records the offset.
pub open spec fn transaction_byte_length(v: TransactionView) -> nat {
    nullifier_list_len(v.inputs) + commitment_list_len(v.outputs)
}

/// What decoding a transaction from `bytes` yields.
pub open spec fn transaction_dec(bytes: Seq<u8>) -> Result<TransactionView, Error> {
    if bytes.len() < 2 {
        Err(Error::FailedToDecode)
    } else {
        match nullifier_list_dec(bytes.skip(2), spec_u16_from_be(bytes.subrange(0, 2)) as nat) {
            Err(e) => Err(e),
            Ok(ins) => {
                let rest = bytes.skip(2 + ins.1 as int);
                if rest.len() < 2 {
                    Err(Error::FailedToDecode)
                } else {
                    match commitment_list_dec(
                        rest.skip(2),
                        spec_u16_from_be(rest.subrange(0, 2)) as nat,
                    ) {
                        Err(e) => Err(e),
                        Ok(outs) => Ok(TransactionView { inputs: ins.0, outputs: outs.0 }),
                    }
                }
            },
        }
    }
}

/// Appending an element to a list appends its encoding to the list's.
pub proof fn lemma_nullifier_list_enc_push(s: Seq<NullifierView>, v: NullifierView)
    ensures
        nullifier_list_enc(s.push(v)) == nullifier_list_enc(s) + nullifier_enc(v),
        nullifier_list_len(s.push(v)) == nullifier_list_len(s) + nullifier_len(v),
    decreases s.len(),
{
    assert(s.push(v).len() != 0);
    assert(nullifier_list_enc(s.push(v)) == nullifier_enc(s.push(v)[0]) + nullifier_list_enc(
        s.push(v).skip(1),
    ));
    assert(nullifier_list_len(s.push(v)) == nullifier_len(s.push(v)[0]) + nullifier_list_len(
        s.push(v).skip(1),
    ));
    if s.len() == 0 {
        assert(s.push(v)[0] == v);
        assert(s.push(v).skip(1) =~= s);
        assert(nullifier_list_enc(s) == Seq::<u8>::empty());
        assert(nullifier_enc(v) + Seq::<u8>::empty() =~= nullifier_enc(v));
        assert(Seq::<u8>::empty() + nullifier_enc(v) =~= nullifier_enc(v));
    } else {
        assert(s.push(v)[0] == s[0]);
        assert(s.push(v).skip(1) =~= s.skip(1).push(v));
        lemma_nullifier_list_enc_push(s.skip(1), v);
        assert((nullifier_enc(s[0]) + nullifier_list_enc(s.skip(1))) + nullifier_enc(v)
            =~= nullifier_enc(s[0]) + (nullifier_list_enc(s.skip(1)) + nullifier_enc(v)));
    }
}

/// Appending an element to a list appends its encoding to the list's.
pub proof fn lemma_commitment_list_enc_push(s: Seq<CommitmentView>, v: CommitmentView)
    ensures
        commitment_list_enc(s.push(v)) == commitment_list_enc(s) + commitment_enc(v),
        commitment_list_len(s.push(v)) == commitment_list_len(s) + commitment_len(v),
    decreases s.len(),
{
    assert(s.push(v).len() != 0);
    assert(commitment_list_enc(s.push(v)) == commitment_enc(s.push(v)[0]) + commitment_list_enc(
        s.push(v).skip(1),
    ));
    assert(commitment_list_len(s.push(v)) == commitment_len(s.push(v)[0]) + commitment_list_len(
        s.push(v).skip(1),
    ));
    if s.len() == 0 {
        assert(s.push(v)[0] == v);
        assert(s.push(v).skip(1) =~= s);
        assert(commitment_list_enc(s) == Seq::<u8>::empty());
        assert(commitment_enc(v) + Seq::<u8>::empty() =~= commitment_enc(v));
        assert(Seq::<u8>::empty() + commitment_enc(v) =~= commitment_enc(v));
    } else {
        assert(s.push(v)[0] == s[0]);
        assert(s.push(v).skip(1) =~= s.skip(1).push(v));
        lemma_commitment_list_enc_push(s.skip(1), v);
        assert((commitment_enc(s[0]) + commitment_list_enc(s.skip(1))) + commitment_enc(v)
            =~= commitment_enc(s[0]) + (commitment_list_enc(s.skip(1)) + commitment_enc(v)));
    }
}

/// A list of nullifiers reports at most 37 bytes per element.
pub proof fn lemma_nullifier_list_len_bound(s: Seq<NullifierView>)
    ensures
        nullifier_list_len(s) <= s.len() * 37,
    decreases s.len(),
{
    if s.len() > 0 {
        lemma_nullifier_list_len_bound(s.skip(1));
    }
}

/// A list of commitments reports at most 85 bytes per element.
pub proof fn lemma_commitment_list_len_bound(s: Seq<CommitmentView>)
    ensures
        commitment_list_len(s) <= s.len() * 85,
    decreases s.len(),
{
    if s.len() > 0 {
        lemma_commitment_list_len_bound(s.skip(1));
    }
}

/// A list of well-formed nullifiers encodes to exactly the bytes it reports.
pub proof fn lemma_nullifier_list_enc_length(s: Seq<NullifierView>)
    requires
        forall|i: int| 0 <= i < s.len() ==> nullifier_wf(#[trigger] s[i]),
    ensures
        nullifier_list_enc(s).len() == nullifier_list_len(s),
    decreases s.len(),
{
    if s.len() > 0 {
        lemma_nullifier_enc_length(s[0]);
        lemma_nullifier_list_enc_length(s.skip(1));
    }
}

/// A list of well-formed commitments encodes to exactly the bytes it reports.
pub proof fn lemma_commitment_list_enc_length(s: Seq<CommitmentView>)
    requires
        forall|i: int| 0 <= i < s.len() ==> commitment_wf(#[trigger] s[i]),
    ensures
        commitment_list_enc(s).len() == commitment_list_len(s),
    decreases s.len(),
{
    if s.len() > 0 {
        lemma_commitment_enc_length(s[0]);
        lemma_commitment_list_enc_length(s.skip(1));
    }
}

/// A successfully decoded list holds exactly `n` well-formed elements and
/// consumed no more bytes than the buffer holds.
pub proof fn lemma_nullifier_list_dec_prefix(bytes: Seq<u8>, n: nat)
    requires
        nullifier_list_dec(bytes, n) is Ok,
    ensures
        nullifier_list_dec(bytes, n)->Ok_0.0.len() == n,
        nullifier_list_dec(bytes, n)->Ok_0.1 <= bytes.len(),
        forall|i: int|
            0 <= i < n ==> nullifier_wf(#[trigger] nullifier_list_dec(bytes, n)->Ok_0.0[i]),
    decreases n,
{
    if n > 0 {
        let v = nullifier_dec(bytes)->Ok_0;
        lemma_nullifier_dec_prefix(bytes);
        lemma_nullifier_list_dec_prefix(bytes.skip(nullifier_len(v) as int), (n - 1) as nat);
    }
}

/// A successfully decoded list holds exactly `n` well-formed elements and
/// consumed no more bytes than the buffer holds.
pub proof fn lemma_commitment_list_dec_prefix(bytes: Seq<u8>, n: nat)
    requires
        commitment_list_dec(bytes, n) is Ok,
    ensures
        commitment_list_dec(bytes, n)->Ok_0.0.len() == n,
        commitment_list_dec(bytes, n)->Ok_0.1 <= bytes.len(),
        forall|i: int|
            0 <= i < n ==> commitment_wf(#[trigger] commitment_list_dec(bytes, n)->Ok_0.0[i]),
    decreases n,
{
    if n > 0 {
        let v = commitment_dec(bytes)->Ok_0;
        lemma_commitment_dec_prefix(bytes);
        lemma_commitment_list_dec_prefix(bytes.skip(commitment_len(v) as int), (n - 1) as nat);
    }
}

/// Decoding the concatenated encodings of `s.len()` well-formed nullifiers,
/// with any trailing bytes, recovers the list in order. (Round trip.)
pub proof fn lemma_nullifier_list_round_trip(s: Seq<NullifierView>, extra: Seq<u8>)
    requires
        forall|i: int| 0 <= i < s.len() ==> nullifier_wf(#[trigger] s[i]),
    ensures
        nullifier_list_dec(nullifier_list_enc(s) + extra, s.len()) == Ok::<
            (Seq<NullifierView>, nat),
            Error,
        >((s, nullifier_list_len(s))),
    decreases s.len(),
{
    if s.len() == 0 {
        assert(s =~= Seq::<NullifierView>::empty());
    } else {
        let v = s[0];
        let tail_enc = nullifier_list_enc(s.skip(1)) + extra;
        let bytes = nullifier_list_enc(s) + extra;
        assert(bytes =~= nullifier_enc(v) + tail_enc);
        lemma_nullifier_round_trip(v, tail_enc);
        lemma_nullifier_enc_length(v);
        assert(bytes.skip(nullifier_len(v) as int) =~= tail_enc);
        lemma_nullifier_list_round_trip(s.skip(1), extra);
        assert(seq![v] + s.skip(1) =~= s);
    }
}

/// Decoding the concatenated encodings of `s.len()` well-formed commitments,
/// with any trailing bytes, recovers the list in order. (Round trip.)
pub proof fn lemma_commitment_list_round_trip(s: Seq<CommitmentView>, extra: Seq<u8>)
    requires
        forall|i: int| 0 <= i < s.len() ==> commitment_wf(#[trigger] s[i]),
    ensures
        commitment_list_dec(commitment_list_enc(s) + extra, s.len()) == Ok::<
            (Seq<CommitmentView>, nat),
            Error,
        >((s, commitment_list_len(s))),
    decreases s.len(),
{
    if s.len() == 0 {
        assert(s =~= Seq::<CommitmentView>::empty());
    } else {
        let v = s[0];
        let tail_enc = commitment_list_enc(s.skip(1)) + extra;
        let bytes = commitment_list_enc(s) + extra;
        assert(bytes =~= commitment_enc(v) + tail_enc);
        lemma_commitment_round_trip(v, tail_enc);
        lemma_commitment_enc_length(v);
        assert(bytes.skip(commitment_len(v) as int) =~= tail_enc);
        lemma_commitment_list_round_trip(s.skip(1), extra);
        assert(seq![v] + s.skip(1) =~= s);
    }
}

/// A transaction's encoding is four bytes (the two counts) longer than the
/// byte length it reports: the report covers the elements alone.
pub proof fn lemma_transaction_enc_length(v: TransactionView)
    requires
        transaction_wf(v),
    ensures
        transaction_enc(v).len() == transaction_byte_length(v) + 4,
{
    lemma_nullifier_list_enc_length(v.inputs);
    lemma_commitment_list_enc_length(v.outputs);
}

/// Decoding an encoded transaction, with any trailing bytes, recovers the
/// transaction: both lists, in order and in full. (Round trip, list fidelity.)
pub proof fn lemma_transaction_round_trip(v: TransactionView, extra: Seq<u8>)
    requires
        transaction_wf(v),
    ensures
        transaction_dec(transaction_enc(v) + extra) == Ok::<TransactionView, Error>(v),
{
    let n16 = v.inputs.len() as u16;
    let m16 = v.outputs.len() as u16;
    let c1 = spec_u16_to_be(n16);
    let c2 = spec_u16_to_be(m16);
    let l1 = nullifier_list_enc(v.inputs);
    let l2 = commitment_list_enc(v.outputs);
    let bytes = transaction_enc(v) + extra;
    lemma_u16_be_round_trip(n16);
    lemma_u16_be_round_trip(m16);
    assert(bytes.subrange(0, 2) =~= c1);
    assert(bytes.skip(2) =~= l1 + (c2 + l2 + extra));
    lemma_nullifier_list_round_trip(v.inputs, c2 + l2 + extra);
    lemma_nullifier_list_enc_length(v.inputs);
    let used = nullifier_list_len(v.inputs);
    let rest = bytes.skip(2 + used as int);
    assert(rest =~= c2 + l2 + extra);
    assert(rest.subrange(0, 2) =~= c2);
    assert(rest.skip(2) =~= l2 + extra);
    lemma_commitment_list_round_trip(v.outputs, extra);
    assert(v == TransactionView { inputs: v.inputs, outputs: v.outputs });
}

/// The models of a list with one more element are the models of the list
/// with the new element's model appended.
proof fn lemma_nullifier_views_push(s: Seq<Nullifier>, x: Nullifier)
    ensures
        nullifier_views(s.push(x)) == nullifier_views(s).push(x@),
{
    assert(nullifier_views(s.push(x)) =~= nullifier_views(s).push(x@));
}

/// The models of a list with one more element are the models of the list
/// with the new element's model appended.
proof fn lemma_commitment_views_push(s: Seq<Commitment>, x: Commitment)
    ensures
        commitment_views(s.push(x)) == commitment_views(s).push(x@),
{
    assert(commitment_views(s.push(x)) =~= commitment_views(s).push(x@));
}

/// Decodes `n` consecutive nullifiers from `bytes`, starting at `start`.
/// On success returns the elements and the cursor just past them.
fn decode_nullifier_list(bytes: &[u8], start: usize, n: usize) -> (r: Result<
    (Vec<Nullifier>, usize),
    Error,
>)
    requires
        start <= bytes@.len(),
    ensures
        (match r {
            Ok(p) => start <= p.1 <= bytes@.len() && nullifier_list_dec(
                bytes@.skip(start as int),
                n as nat,
            ) == Ok::<(Seq<NullifierView>, nat), Error>(
                (nullifier_views(p.0@), (p.1 - start) as nat),
            ),
            Err(e) => nullifier_list_dec(bytes@.skip(start as int), n as nat) == Err::<
                (Seq<NullifierView>, nat),
                Error,
            >(e),
        }),
{
    let len = bytes.len();
    let mut items: Vec<Nullifier> = Vec::new();
    let mut cursor: usize = start;
    let mut i: usize = 0;
    proof {
        assert(nullifier_views(items@) =~= Seq::<NullifierView>::empty());
    }
    while i < n
        invariant
            i <= n,
            start <= cursor <= len,
            len == bytes@.len(),
            items@.len() == i,
            nullifier_list_dec(bytes@.skip(start as int), n as nat) == (match nullifier_list_dec(
                bytes@.skip(cursor as int),
                (n - i) as nat,
            ) {
                Ok(p) => Ok::<(Seq<NullifierView>, nat), Error>(
                    (nullifier_views(items@) + p.0, (cursor - start + p.1) as nat),
                ),
                Err(e) => Err::<(Seq<NullifierView>, nat), Error>(e),
            }),
        decreases n - i,
    {
        let rest = vstd::slice::slice_subrange(bytes, cursor, len);
        proof {
            assert(rest@ =~= bytes@.skip(cursor as int));
        }
        match Nullifier::decode(rest) {
            Err(e) => {
                return Err(e);
            },
            Ok(nf) => {
                let step = nf.byte_length();
                proof {
                    lemma_nullifier_dec_prefix(bytes@.skip(cursor as int));
                    assert(bytes@.skip(cursor as int).skip(step as int) =~= bytes@.skip(
                        cursor + step,
                    ));
                    lemma_nullifier_views_push(items@, nf);
                    let done = nullifier_views(items@);
                    let sub = nullifier_list_dec(bytes@.skip(cursor + step), (n - i - 1) as nat);
                    if sub is Ok {
                        assert(done + (seq![nf@] + sub->Ok_0.0) =~= done.push(nf@) + sub->Ok_0.0);
                    }
                }
                items.push(nf);
                cursor = cursor + step;
                i = i + 1;
            },
        }
    }
    proof {
        assert(nullifier_list_dec(bytes@.skip(cursor as int), 0) == Ok::<
            (Seq<NullifierView>, nat),
            Error,
        >((Seq::empty(), 0)));
        assert(nullifier_views(items@) + Seq::<NullifierView>::empty() =~= nullifier_views(
            items@,
        ));
    }
    Ok((items, cursor))
}

/// Decodes `n` consecutive commitments from `bytes`, starting at `start`.
/// On success returns the elements and the cursor just past them.
fn decode_commitment_list(bytes: &[u8], start: usize, n: usize) -> (r: Result<
    (Vec<Commitment>, usize),
    Error,
>)
    requires
        start <= bytes@.len(),
    ensures
        (match r {
            Ok(p) => start <= p.1 <= bytes@.len() && commitment_list_dec(
                bytes@.skip(start as int),
                n as nat,
            ) == Ok::<(Seq<CommitmentView>, nat), Error>(
                (commitment_views(p.0@), (p.1 - start) as nat),
            ),
            Err(e) => commitment_list_dec(bytes@.skip(start as int), n as nat) == Err::<
                (Seq<CommitmentView>, nat),
                Error,
            >(e),
        }),
{
    let len = bytes.len();
    let mut items: Vec<Commitment> = Vec::new();
    let mut cursor: usize = start;
    let mut i: usize = 0;
    proof {
        assert(commitment_views(items@) =~= Seq::<CommitmentView>::empty());
    }
    while i < n
        invariant
            i <= n,
            start <= cursor <= len,
            len == bytes@.len(),
            items@.len() == i,
            commitment_list_dec(bytes@.skip(start as int), n as nat) == (match commitment_list_dec(
                bytes@.skip(cursor as int),
                (n - i) as nat,
            ) {
                Ok(p) => Ok::<(Seq<CommitmentView>, nat), Error>(
                    (commitment_views(items@) + p.0, (cursor - start + p.1) as nat),
                ),
                Err(e) => Err::<(Seq<CommitmentView>, nat), Error>(e),
            }),
        decreases n - i,
    {
        let rest = vstd::slice::slice_subrange(bytes, cursor, len);
        proof {
            assert(rest@ =~= bytes@.skip(cursor as int));
        }
        match Commitment::decode(rest) {
            Err(e) => {
                return Err(e);
            },
            Ok(cm) => {
                let step = cm.byte_length();
                proof {
                    lemma_commitment_dec_prefix(bytes@.skip(cursor as int));
                    assert(bytes@.skip(cursor as int).skip(step as int) =~= bytes@.skip(
                        cursor + step,
                    ));
                    lemma_commitment_views_push(items@, cm);
                    let done = commitment_views(items@);
                    let sub = commitment_list_dec(bytes@.skip(cursor + step), (n - i - 1) as nat);
                    if sub is Ok {
                        assert(done + (seq![cm@] + sub->Ok_0.0) =~= done.push(cm@) + sub->Ok_0.0);
                    }
                }
                items.push(cm);
                cursor = cursor + step;
                i = i + 1;
            },
        }
    }
    proof {
        assert(commitment_list_dec(bytes@.skip(cursor as int), 0) == Ok::<
            (Seq<CommitmentView>, nat),
            Error,
        >((Seq::empty(), 0)));
        assert(commitment_views(items@) + Seq::<CommitmentView>::empty() =~= commitment_views(
            items@,
        ));
    }
    Ok((items, cursor))
}

impl ByteLength for Transaction {
    open spec fn length_wf(&self) -> bool {
        transaction_wf(self@)
    }

    open spec fn spec_byte_length(&self) -> nat {
        transaction_byte_length(self@)
    }

    fn byte_length(&self) -> usize {
        let mut total: usize = 0;
        let n = self.inputs.len();
        let mut i: usize = 0;
        proof {
            assert(self@.inputs.take(0) =~= Seq::<NullifierView>::empty());
        }
        while i < n
            invariant
                i <= n,
                n == self.inputs@.len(),
                transaction_wf(self@),
                total == nullifier_list_len(self@.inputs.take(i as int)),
            decreases n - i,
        {
            proof {
                lemma_nullifier_list_len_bound(self@.inputs.take(i as int));
                assert(self@.inputs.take(i + 1) =~= self@.inputs.take(i as int).push(
                    self@.inputs[i as int],
                ));
                lemma_nullifier_list_enc_push(self@.inputs.take(i as int), self@.inputs[i as int]);
            }
            total = total + self.inputs[i].byte_length();
            i = i + 1;
        }
        proof {
            assert(self@.inputs.take(n as int) =~= self@.inputs);
            lemma_nullifier_list_len_bound(self@.inputs);
            assert(self@.outputs.take(0) =~= Seq::<CommitmentView>::empty());
        }
        let m = self.outputs.len();
        let mut j: usize = 0;
        while j < m
            invariant
                j <= m,
                m == self.outputs@.len(),
                transaction_wf(self@),
                total == nullifier_list_len(self@.inputs) + commitment_list_len(
                    self@.outputs.take(j as int),
                ),
                nullifier_list_len(self@.inputs) <= 65535 * 37,
            decreases m - j,
        {
            proof {
                lemma_commitment_list_len_bound(self@.outputs.take(j as int));
                assert(self@.outputs.take(j + 1) =~= self@.outputs.take(j as int).push(
                    self@.outputs[j as int],
                ));
                lemma_commitment_list_enc_push(
                    self@.outputs.take(j as int),
                    self@.outputs[j as int],
                );
            }
            total = total + self.outputs[j].byte_length();
            j = j + 1;
        }
        proof {
            assert(self@.outputs.take(m as int) =~= self@.outputs);
        }
        total
    }
}

impl Encodeable for Transaction {
    open spec fn enc_wf(&self) -> bool {
        transaction_wf(self@)
    }

    open spec fn spec_encode(&self) -> Seq<u8> {
        transaction_enc(self@)
    }

    fn encode(&self) -> Vec<u8> {
        let mut bytes: Vec<u8> = Vec::new();
        let n = self.inputs.len();
        push_u16_be(&mut bytes, n as u16);
        let ghost c1 = spec_u16_to_be(n as u16);
        let mut i: usize = 0;
        proof {
            assert(self@.inputs.take(0) =~= Seq::<NullifierView>::empty());
            assert(bytes@ =~= c1 + nullifier_list_enc(self@.inputs.take(0)));
        }
        while i < n
            invariant
                i <= n,
                n == self.inputs@.len(),
                bytes@ == c1 + nullifier_list_enc(self@.inputs.take(i as int)),
            decreases n - i,
        {
            let mut e = self.inputs[i].encode();
            bytes.append(&mut e);
            proof {
                assert(self@.inputs.take(i + 1) =~= self@.inputs.take(i as int).push(
                    self@.inputs[i as int],
                ));
                lemma_nullifier_list_enc_push(self@.inputs.take(i as int), self@.inputs[i as int]);
                assert(bytes@ =~= c1 + nullifier_list_enc(self@.inputs.take(i + 1)));
            }
            i = i + 1;
        }
        proof {
            assert(self@.inputs.take(n as int) =~= self@.inputs);
        }
        let m = self.outputs.len();
        push_u16_be(&mut bytes, m as u16);
        let ghost c2 = spec_u16_to_be(m as u16);
        let ghost mid = c1 + nullifier_list_enc(self@.inputs) + c2;
        proof {
            assert(self@.outputs.take(0) =~= Seq::<CommitmentView>::empty());
            assert(bytes@ =~= mid + commitment_list_enc(self@.outputs.take(0)));
        }
        let mut j: usize = 0;
        while j < m
            invariant
                j <= m,
                m == self.outputs@.len(),
                bytes@ == mid + commitment_list_enc(self@.outputs.take(j as int)),
            decreases m - j,
        {
            let mut e = self.outputs[j].encode();
            bytes.append(&mut e);
            proof {
                assert(self@.outputs.take(j + 1) =~= self@.outputs.take(j as int).push(
                    self@.outputs[j as int],
                ));
                lemma_commitment_list_enc_push(
                    self@.outputs.take(j as int),
                    self@.outputs[j as int],
                );
                assert(bytes@ =~= mid + commitment_list_enc(self@.outputs.take(j + 1)));
            }
            j = j + 1;
        }
        proof {
            assert(self@.outputs.take(m as int) =~= self@.outputs);
            assert(bytes@ =~= transaction_enc(self@));
        }
        bytes
    }
}

impl Decodeable for Transaction {
    open spec fn spec_decode(bytes: Seq<u8>) -> Result<TransactionView, Error> {
        transaction_dec(bytes)
    }

    fn decode(bytes: &[u8]) -> Result<Self, Error> {
        let len = bytes.len();
        if len < 2 {
            return Err(Error::FailedToDecode);
        }
        let n = u16_from_be(bytes[0], bytes[1]) as usize;
        proof {
            assert(bytes@.subrange(0, 2) =~= seq![bytes@[0], bytes@[1]]);
        }
        let (inputs, cursor) = match decode_nullifier_list(bytes, 2, n) {
            Ok(p) => p,
            Err(e) => {
                return Err(e);
            },
        };
        proof {
            assert(bytes@.skip(2 + (cursor - 2)) =~= bytes@.skip(cursor as int));
        }
        if len - cursor < 2 {
            return Err(Error::FailedToDecode);
        }
        let m = u16_from_be(bytes[cursor], bytes[cursor + 1]) as usize;
        proof {
            let rest = bytes@.skip(cursor as int);
            assert(rest.subrange(0, 2) =~= seq![bytes@[cursor as int], bytes@[cursor + 1]]);
            assert(rest.skip(2) =~= bytes@.skip(cursor + 2));
        }
        let outputs = match decode_commitment_list(bytes, cursor + 2, m) {
            Ok(p) => p.0,
            Err(e) => {
                return Err(e);
            },
        };
        Ok(Transaction { inputs, outputs })
    }
}

/// Decoding a transaction from fewer than two bytes fails. (Truncation.)
pub proof fn lemma_transaction_truncation(bytes: Seq<u8>)
    requires
        bytes.len() < 2,
    ensures
        transaction_dec(bytes) == Err::<TransactionView, Error>(Error::FailedToDecode),
{
}

/// The empty transaction encodes to exactly four zero bytes: two all-zero
/// counts and no elements.
pub proof fn lemma_empty_transaction_enc()
    ensures
        transaction_enc(
            TransactionView { inputs: Seq::empty(), outputs: Seq::empty() },
        ) =~= seq![0u8, 0u8, 0u8, 0u8],
{
    assert((0u16 >> 8) & 0xff == 0) by (bit_vector);
    assert(0u16 & 0xff == 0) by (bit_vector);
}

} // verus!
