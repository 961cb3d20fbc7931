//! Sum2 message payloads.
//!
//! These messages are sent by sum participants during the sum2 phase. On the
//! wire a Sum2 payload is the 64-byte sum task signature, then the model mask
//! object, then the scalar mask object; the two mask fields are
//! self-describing, so each field's offset is computable from what precedes it.

use crate::bignum::copy_bytes;
use crate::mask::{MaskMany, MaskObject, MaskObjectV, MaskOne};
use crate::mask_codec::{
    append_bytes, copy_range, dec_len, dec_many, dec_one, decode_mask_many, decode_mask_one,
    enc_many, enc_many_len, enc_one, encode_mask_many, encode_mask_one, lemma_dec_enc_many,
    lemma_dec_enc_one, many_v_wf, mask_object_len, one_v_wf, DecodeError,
};
use vstd::prelude::*;

verus! {

/// The length of the sum task signature field.
pub const SUM_SIGNATURE_LENGTH: usize = 64;

/// Whether a byte sequence passes the Sum2 buffer bound checks: long enough
/// for the signature, and both mask fields announce lengths that fit.
pub open spec fn check_sum2_buffer(s: Seq<u8>) -> Result<(), DecodeError> {
    if s.len() < 64 {
        Err(DecodeError::BufferTooShort)
    } else {
        match dec_len(s.skip(64)) {
            Err(e) => Err(e),
            Ok(l1) => match dec_len(s.skip(64 + l1 as int)) {
                Err(e) => Err(e),
                Ok(_) => Ok(()),
            },
        }
    }
}

/// A wrapper around a buffer that contains a Sum2 message.
///
/// It provides getters and setters to access the different fields of the
/// message safely.
#[derive(Clone, Debug, Eq, PartialEq, Hash)]
pub struct Sum2Buffer {
    inner: Vec<u8>,
}

impl View for Sum2Buffer {
    type V = Seq<u8>;

    closed spec fn view(&self) -> Seq<u8> {
        self.inner@
    }
}

impl Sum2Buffer {
    /// Performs bound checks for the various message fields on `bytes` and
    /// returns a new buffer.
    pub fn new(bytes: Vec<u8>) -> (r: Result<Self, DecodeError>)
        ensures
            match r {
                Ok(b) => check_sum2_buffer(bytes@) is Ok && b@ == bytes@,
                Err(e) => check_sum2_buffer(bytes@) == Err::<(), DecodeError>(e),
            },
    {
        let buffer = Self { inner: bytes };
        match buffer.check_buffer_length() {
            Ok(_) => Ok(buffer),
            Err(e) => Err(e),
        }
    }

    /// Returns a buffer over the given `bytes` without performing bound
    /// checks; accessing the message fields may then be refused.
    pub fn new_unchecked(bytes: Vec<u8>) -> (r: Self)
        ensures
            r@ == bytes@,
    {
        Self { inner: bytes }
    }

    /// Consumes the buffer and hands its bytes back.
    pub fn into_inner(self) -> (r: Vec<u8>)
        ensures
            r@ == self@,
    {
        self.inner
    }

    /// Performs bound checks for the various message fields on this buffer.
    pub fn check_buffer_length(&self) -> (r: Result<(), DecodeError>)
        ensures
            r == check_sum2_buffer(self@),
    {
        let n = self.inner.len();
        if n < 64 {
            return Err(DecodeError::BufferTooShort);
        }
        let l1 = match mask_object_len(&self.inner, 64) {
            Ok(l) => l,
            Err(e) => {
                return Err(e);
            },
        };
        proof {
            assert(64 + l1 <= n);
        }
        match mask_object_len(&self.inner, 64 + l1) {
            Ok(_) => Ok(()),
            Err(e) => Err(e),
        }
    }

    /// Gets the offset of the model mask field.
    pub fn model_mask_offset(&self) -> (r: usize)
        ensures
            r == 64,
    {
        SUM_SIGNATURE_LENGTH
    }

    /// Gets the offset of the scalar mask field: the end of the model mask.
    pub fn scalar_mask_offset(&self) -> (r: usize)
        requires
            self@.len() >= 64,
            dec_len(self@.skip(64)) is Ok,
        ensures
            r as nat == 64 + dec_len(self@.skip(64))->Ok_0,
            r <= self@.len(),
    {
        let n = self.inner.len();
        let l1 = match mask_object_len(&self.inner, 64) {
            Ok(l) => l,
            Err(_) => {
                proof {
                    assert(false);
                }
                vstd::pervasive::unreached()
            },
        };
        proof {
            assert(64 + l1 <= n);
        }
        64 + l1
    }

    /// Gets a copy of the sum signature field.
    pub fn sum_signature(&self) -> (r: Vec<u8>)
        requires
            self@.len() >= 64,
        ensures
            r@ == self@.subrange(0, 64),
    {
        let n = self.inner.len();
        copy_range(&self.inner, 0, 64)
    }

    /// Gets a copy of the rest of the buffer from the model mask field on.
    pub fn model_mask(&self) -> (r: Vec<u8>)
        requires
            self@.len() >= 64,
        ensures
            r@ == self@.skip(64),
    {
        let n = self.inner.len();
        let r = copy_range(&self.inner, 64, n);
        proof {
            assert(r@ =~= self@.skip(64));
        }
        r
    }

    /// Gets a copy of the rest of the buffer from the scalar mask field on.
    pub fn scalar_mask(&self) -> (r: Vec<u8>)
        requires
            self@.len() >= 64,
            dec_len(self@.skip(64)) is Ok,
        ensures
            r@ == self@.skip(64 + dec_len(self@.skip(64))->Ok_0 as int),
    {
        let off = self.scalar_mask_offset();
        let n = self.inner.len();
        let r = copy_range(&self.inner, off, n);
        proof {
            assert(r@ =~= self@.skip(64 + dec_len(self@.skip(64))->Ok_0 as int));
        }
        r
    }

    /// Overwrites the sum signature field.
    pub fn sum_signature_mut(&mut self, bytes: &Vec<u8>)
        requires
            old(self)@.len() >= 64,
            bytes@.len() == 64,
        ensures
            final(self)@ == bytes@ + old(self)@.skip(64),
    {
        let n = self.inner.len();
        let mut out = copy_bytes(bytes);
        let tail = copy_range(&self.inner, 64, n);
        append_bytes(&mut out, &tail);
        proof {
            assert(out@ =~= bytes@ + self@.skip(64));
        }
        self.inner = out;
    }

    /// Overwrites the model mask field with the given bytes, keeping what
    /// follows them.
    pub fn model_mask_mut(&mut self, bytes: &Vec<u8>)
        requires
            64 + bytes@.len() <= old(self)@.len(),
        ensures
            final(self)@ == old(self)@.subrange(0, 64) + bytes@ + old(self)@.skip(
                64 + bytes@.len() as int,
            ),
    {
        let n = self.inner.len();
        let mut out = copy_range(&self.inner, 0, 64);
        append_bytes(&mut out, bytes);
        let tail = copy_range(&self.inner, 64 + bytes.len(), n);
        append_bytes(&mut out, &tail);
        self.inner = out;
    }

    /// Overwrites the scalar mask field with the given bytes, keeping what
    /// follows them. The model mask field must already hold a well-formed
    /// object, since it determines this field's offset.
    pub fn scalar_mask_mut(&mut self, bytes: &Vec<u8>)
        requires
            old(self)@.len() >= 64,
            dec_len(old(self)@.skip(64)) is Ok,
            64 + dec_len(old(self)@.skip(64))->Ok_0 + bytes@.len() <= old(self)@.len(),
        ensures
            ({
                let off = 64 + dec_len(old(self)@.skip(64))->Ok_0 as int;
                final(self)@ == old(self)@.subrange(0, off) + bytes@ + old(self)@.skip(
                    off + bytes@.len(),
                )
            }),
    {
        let off = self.scalar_mask_offset();
        let n = self.inner.len();
        let mut out = copy_range(&self.inner, 0, off);
        append_bytes(&mut out, bytes);
        let tail = copy_range(&self.inner, off + bytes.len(), n);
        append_bytes(&mut out, &tail);
        self.inner = out;
    }
}

/// A high level representation of a sum2 message.
#[derive(Eq, PartialEq, Clone, Debug)]
pub struct Sum2 {
    /// The signature of the round seed and the word "sum": it shows that the
    /// participant was selected for the sum task.
    pub sum_signature: Vec<u8>,
    /// A model mask computed by the participant.
    pub model_mask: MaskObject,
}

/// The mathematical content of a Sum2 message.
pub struct Sum2V {
    pub sum_signature: Seq<u8>,
    pub model_mask: MaskObjectV,
}

impl View for Sum2 {
    type V = Sum2V;

    open spec fn view(&self) -> Sum2V {
        Sum2V { sum_signature: self.sum_signature@, model_mask: self.model_mask@ }
    }
}

/// A Sum2 view that can be encoded.
pub open spec fn sum2_v_wf(v: Sum2V) -> bool {
    &&& v.sum_signature.len() == 64
    &&& many_v_wf(v.model_mask.vector)
    &&& one_v_wf(v.model_mask.scalar)
}

/// The encoding of a Sum2 message.
pub open spec fn enc_sum2(v: Sum2V) -> Seq<u8> {
    v.sum_signature + enc_many(v.model_mask.vector) + enc_one(v.model_mask.scalar)
}

/// What the Sum2 decoder returns on a byte sequence.
pub open spec fn dec_sum2(s: Seq<u8>) -> Result<Sum2V, DecodeError> {
    if s.len() < 64 {
        Err(DecodeError::BufferTooShort)
    } else {
        match dec_many(s.skip(64)) {
            Err(e) => Err(e),
            Ok((mv, n1)) => match dec_one(s.skip(64 + n1 as int)) {
                Err(e) => Err(e),
                Ok((ov, _)) => Ok(
                    Sum2V {
                        sum_signature: s.subrange(0, 64),
                        model_mask: MaskObjectV { vector: mv, scalar: ov },
                    },
                ),
            },
        }
    }
}

/// Decoding an encoded well-formed Sum2 message gives the message back.
pub proof fn lemma_sum2_round_trip(v: Sum2V)
    requires
        sum2_v_wf(v),
    ensures
        dec_sum2(enc_sum2(v)) == Ok::<Sum2V, DecodeError>(v),
{
    let s = enc_sum2(v);
    let em = enc_many(v.model_mask.vector);
    let eo = enc_one(v.model_mask.scalar);
    lemma_dec_enc_many(v.model_mask.vector, eo);
    assert(s.skip(64) =~= em + eo);
    let n1 = enc_many_len(v.model_mask.vector);
    lemma_dec_enc_one(v.model_mask.scalar, Seq::<u8>::empty());
    assert(eo + Seq::<u8>::empty() =~= eo);
    assert(s.skip(64 + n1 as int) =~= eo);
    assert(s.subrange(0, 64) =~= v.sum_signature);
    assert(dec_sum2(s)->Ok_0 == v);
}

impl Sum2 {
    /// Both fields are well formed enough to encode.
    pub open spec fn valid(&self) -> bool {
        sum2_v_wf(self@)
    }

    /// The length of the buffer this message encodes to.
    pub fn buffer_length(&self) -> (r: usize)
        requires
            self.valid(),
            enc_sum2(self@).len() <= usize::MAX,
        ensures
            r as nat == enc_sum2(self@).len(),
    {
        proof {
            lemma_dec_enc_many(self@.model_mask.vector, Seq::<u8>::empty());
            lemma_dec_enc_one(self@.model_mask.scalar, Seq::<u8>::empty());
        }
        let w = self.model_mask.vector.config.order.len();
        let cnt = self.model_mask.vector.data.len();
        let w2 = self.model_mask.scalar.config.order.len();
        proof {
            assert((w as int) * (cnt as int + 1) == (w as int) * (cnt as int) + w)
                by (nonlinear_arith);
        }
        64 + (8 + w * cnt + w) + (8 + w2 * 2)
    }

    /// Encodes this message.
    pub fn to_bytes(&self) -> (r: Vec<u8>)
        requires
            self.valid(),
            enc_sum2(self@).len() <= usize::MAX,
        ensures
            r@ == enc_sum2(self@),
    {
        proof {
            lemma_dec_enc_many(self@.model_mask.vector, Seq::<u8>::empty());
            lemma_dec_enc_one(self@.model_mask.scalar, Seq::<u8>::empty());
        }
        let mut out = copy_bytes(&self.sum_signature);
        let em = encode_mask_many(&self.model_mask.vector);
        append_bytes(&mut out, &em);
        let eo = encode_mask_one(&self.model_mask.scalar);
        append_bytes(&mut out, &eo);
        proof {
            assert(out@ =~= enc_sum2(self@));
        }
        out
    }

    /// Decodes a Sum2 message from the buffer, or says exactly why it cannot.
    pub fn from_bytes(buffer: &Vec<u8>) -> (r: Result<Sum2, DecodeError>)
        ensures
            ({
                let d = dec_sum2(buffer@);
                match r {
                    Ok(m) => d is Ok && m@ == d->Ok_0 && m.sum_signature@.len() == 64
                        && m.model_mask.valid(),
                    Err(e) => d == Err::<Sum2V, DecodeError>(e),
                }
            }),
    {
        let n = buffer.len();
        if n < 64 {
            return Err(DecodeError::BufferTooShort);
        }
        let (vector, n1) = match decode_mask_many(buffer, 64) {
            Ok(p) => p,
            Err(e) => {
                return Err(e);
            },
        };
        let (scalar, _) = match decode_mask_one(buffer, 64 + n1) {
            Ok(p) => p,
            Err(e) => {
                return Err(e);
            },
        };
        let sig = copy_range(buffer, 0, 64);
        let m = Sum2 { sum_signature: sig, model_mask: MaskObject { vector, scalar } };
        proof {
            assert(m@ == dec_sum2(buffer@)->Ok_0);
        }
        Ok(m)
    }
}

} // verus!
