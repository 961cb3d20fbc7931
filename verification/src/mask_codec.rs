//! Binary codec for mask objects.
//!
//! Wire layout of a vector object: a 4-byte little-endian limb width `w` (the
//! modulus' limb count), a 4-byte little-endian element count, the modulus
//! limbs (`w` bytes), then the elements, each padded with zero limbs to `w`
//! bytes. A scalar object uses the same layout with element count one. The
//! total length is therefore computable from the 8-byte prefix alone, which
//! lets composite messages locate the field that follows a mask object.

use crate::bignum::{
    canonical, copy_bytes, is_canonical, le_val, lemma_canonical_unique, lemma_le_val_bound,
    lemma_le_val_push, lemma_le_val_split, lemma_pow256_pos, lemma_strip_spec, lemma_val_lt_fits,
    num_lt, pow256, strip, strip_spec,
};
use crate::mask::{elements_valid, MaskConfig, MaskMany, MaskManyV, MaskObject, MaskOne, MaskOneV};
use vstd::prelude::*;

verus! {

/// Errors of the binary decoders.
#[derive(Debug, Clone, Copy, PartialEq, Eq)]
pub enum DecodeError {
    /// The buffer ends before the field announced by the header.
    BufferTooShort,
    /// An element does not lie below the modulus carried in the header.
    ElementExceedsModulus,
    /// The modulus field itself is malformed, or a scalar field does not hold
    /// exactly one element.
    ConfigMismatch,
}

/// The 4-byte little-endian encoding of a number below 2^32.
pub open spec fn enc_u32(n: nat) -> Seq<u8> {
    seq![
        (n % 256) as u8,
        ((n / 256) % 256) as u8,
        ((n / 256 / 256) % 256) as u8,
        ((n / 256 / 256 / 256) % 256) as u8,
    ]
}

/// `n` zero bytes.
pub open spec fn zero_seq(n: nat) -> Seq<u8> {
    Seq::new(n, |i: int| 0u8)
}

/// A number padded with zero limbs to width `w`.
pub open spec fn pad_spec(s: Seq<u8>, w: nat) -> Seq<u8> {
    s + zero_seq((w - s.len()) as nat)
}

/// The elements of a vector, each padded to width `w`, laid out in order.
pub open spec fn enc_elems(data: Seq<Seq<u8>>, w: nat) -> Seq<u8>
    decreases data.len(),
{
    if data.len() == 0 {
        Seq::empty()
    } else {
        pad_spec(data[0], w) + enc_elems(data.drop_first(), w)
    }
}

/// The encoding of a vector mask object.
pub open spec fn enc_many(m: MaskManyV) -> Seq<u8> {
    enc_u32(m.order.len()) + enc_u32(m.data.len()) + m.order + enc_elems(m.data, m.order.len())
}

/// The length of the encoding of a vector mask object.
pub open spec fn enc_many_len(m: MaskManyV) -> nat {
    8 + m.order.len() * (m.data.len() + 1)
}

/// A vector view that can be encoded: a well-formed modulus, in-range
/// elements, and header fields that fit their 4-byte representation.
pub open spec fn many_v_wf(m: MaskManyV) -> bool {
    &&& canonical(m.order)
    &&& 1 <= m.order.len() < 4294967296
    &&& m.data.len() < 4294967296
    &&& elements_valid(m.data, m.order)
}

/// The encoding of a scalar mask object: a vector of one element.
pub open spec fn enc_one(o: MaskOneV) -> Seq<u8> {
    enc_many(MaskManyV { data: seq![o.data], order: o.order })
}

/// A scalar view that can be encoded.
pub open spec fn one_v_wf(o: MaskOneV) -> bool {
    many_v_wf(MaskManyV { data: seq![o.data], order: o.order })
}

/// What the length probe returns on a byte sequence: the total length of the
/// leading mask object as announced by the 8-byte header.
pub open spec fn dec_len(s: Seq<u8>) -> Result<nat, DecodeError> {
    if s.len() < 8 {
        Err(DecodeError::BufferTooShort)
    } else {
        let w = le_val(s.subrange(0, 4));
        let cnt = le_val(s.subrange(4, 8));
        if s.len() < 8 + w * (cnt + 1) {
            Err(DecodeError::BufferTooShort)
        } else {
            Ok(8 + w * (cnt + 1))
        }
    }
}

/// The elements read back from a byte sequence: each window of `w` bytes,
/// stripped to canonical form.
pub open spec fn dec_elems(s: Seq<u8>, w: nat, cnt: nat) -> Seq<Seq<u8>> {
    Seq::new(cnt, |i: int| strip_spec(s.subrange(8 + w + i * w, 8 + w + (i + 1) * w)))
}

/// What the vector decoder returns on a byte sequence: the decoded object and
/// the number of bytes it occupies, or the exact error.
pub open spec fn dec_many(s: Seq<u8>) -> Result<(MaskManyV, nat), DecodeError> {
    match dec_len(s) {
        Err(e) => Err(e),
        Ok(total) => {
            let w = le_val(s.subrange(0, 4));
            let cnt = le_val(s.subrange(4, 8));
            let order = s.subrange(8, 8 + w as int);
            if !(canonical(order) && w >= 1) {
                Err(DecodeError::ConfigMismatch)
            } else {
                let data = dec_elems(s, w, cnt);
                if forall|i: int| 0 <= i < cnt ==> le_val(#[trigger] data[i]) < le_val(order) {
                    Ok((MaskManyV { data, order }, total))
                } else {
                    Err(DecodeError::ElementExceedsModulus)
                }
            }
        },
    }
}

/// What the scalar decoder returns: the vector decoder's result, required to
/// hold exactly one element.
pub open spec fn dec_one(s: Seq<u8>) -> Result<(MaskOneV, nat), DecodeError> {
    match dec_many(s) {
        Err(e) => Err(e),
        Ok((mv, n)) => {
            if mv.data.len() == 1 {
                Ok((MaskOneV { data: mv.data[0], order: mv.order }, n))
            } else {
                Err(DecodeError::ConfigMismatch)
            }
        },
    }
}

/// The value of a 4-limb sequence, written out.
pub proof fn lemma_le_val4(s: Seq<u8>)
    requires
        s.len() == 4,
    ensures
        le_val(s) == s[0] as nat + 256 * (s[1] as nat) + 65536 * (s[2] as nat) + 16777216 * (
        s[3] as nat),
{
    let p0 = Seq::<u8>::empty();
    let p1 = p0.push(s[0]);
    let p2 = p1.push(s[1]);
    let p3 = p2.push(s[2]);
    let p4 = p3.push(s[3]);
    assert(s =~= p4);
    lemma_le_val_push(p0, s[0]);
    lemma_le_val_push(p1, s[1]);
    lemma_le_val_push(p2, s[2]);
    lemma_le_val_push(p3, s[3]);
    assert(pow256(0) == 1);
    assert(pow256(1) == 256);
    assert(pow256(2) == 65536);
    assert(pow256(3) == 16777216);
    assert(le_val(p0) == 0);
    assert(le_val(p1) == le_val(p0) + (s[0] as nat) * 1) by (nonlinear_arith)
        requires
            le_val(p1) == le_val(p0) + (s[0] as nat) * pow256(p0.len()),
            pow256(p0.len()) == 1,
    ;
    assert(le_val(p2) == le_val(p1) + (s[1] as nat) * 256) by (nonlinear_arith)
        requires
            le_val(p2) == le_val(p1) + (s[1] as nat) * pow256(p1.len()),
            pow256(p1.len()) == 256,
    ;
    assert(le_val(p3) == le_val(p2) + (s[2] as nat) * 65536) by (nonlinear_arith)
        requires
            le_val(p3) == le_val(p2) + (s[2] as nat) * pow256(p2.len()),
            pow256(p2.len()) == 65536,
    ;
    assert(le_val(p4) == le_val(p3) + (s[3] as nat) * 16777216) by (nonlinear_arith)
        requires
            le_val(p4) == le_val(p3) + (s[3] as nat) * pow256(p3.len()),
            pow256(p3.len()) == 16777216,
    ;
}

/// The 4-byte encoding of a number below 2^32 reads back as that number.
pub proof fn lemma_enc_u32_val(n: nat)
    requires
        n < 4294967296,
    ensures
        enc_u32(n).len() == 4,
        le_val(enc_u32(n)) == n,
{
    let s = enc_u32(n);
    lemma_le_val4(s);
    let r1 = n / 256;
    let r2 = r1 / 256;
    let r3 = r2 / 256;
    vstd::arithmetic::div_mod::lemma_fundamental_div_mod(n as int, 256);
    vstd::arithmetic::div_mod::lemma_fundamental_div_mod(r1 as int, 256);
    vstd::arithmetic::div_mod::lemma_fundamental_div_mod(r2 as int, 256);
    vstd::arithmetic::div_mod::lemma_small_mod(r3, 256);
}

/// Zero bytes hold the value zero.
pub proof fn lemma_zero_seq_val(n: nat)
    ensures
        le_val(zero_seq(n)) == 0,
    decreases n,
{
    if n == 0 {
        assert(zero_seq(0) =~= Seq::<u8>::empty());
    } else {
        lemma_zero_seq_val((n - 1) as nat);
        assert(zero_seq(n) =~= zero_seq((n - 1) as nat).push(0u8));
        lemma_le_val_push(zero_seq((n - 1) as nat), 0u8);
    }
}

/// Padding preserves the value and sets the width.
pub proof fn lemma_pad_val(s: Seq<u8>, w: nat)
    requires
        s.len() <= w,
    ensures
        pad_spec(s, w).len() == w,
        le_val(pad_spec(s, w)) == le_val(s),
{
    let p = pad_spec(s, w);
    lemma_le_val_split(p, s.len() as int);
    assert(p.subrange(0, s.len() as int) =~= s);
    assert(p.subrange(s.len() as int, p.len() as int) =~= zero_seq((w - s.len()) as nat));
    lemma_zero_seq_val((w - s.len()) as nat);
    assert(pow256(s.len()) * 0 == 0) by (nonlinear_arith);
}

/// Stripping a padded canonical number gives the number back.
pub proof fn lemma_strip_pad(s: Seq<u8>, w: nat)
    requires
        canonical(s),
        s.len() <= w,
    ensures
        strip_spec(pad_spec(s, w)) == s,
{
    lemma_pad_val(s, w);
    lemma_strip_spec(pad_spec(s, w));
    lemma_canonical_unique(strip_spec(pad_spec(s, w)), s);
}

/// All elements of a well-formed vector fit in the modulus' width.
pub proof fn lemma_elements_fit(data: Seq<Seq<u8>>, order: Seq<u8>)
    requires
        elements_valid(data, order),
    ensures
        forall|i: int| 0 <= i < data.len() ==> (#[trigger] data[i]).len() <= order.len(),
{
    assert forall|i: int| 0 <= i < data.len() implies (#[trigger] data[i]).len()
        <= order.len() by {
        lemma_le_val_bound(order);
        lemma_val_lt_fits(data[i], order.len());
    }
}

/// The element segment is `data.len() * w` bytes long.
pub proof fn lemma_enc_elems_len(data: Seq<Seq<u8>>, w: nat)
    requires
        forall|i: int| 0 <= i < data.len() ==> (#[trigger] data[i]).len() <= w,
    ensures
        enc_elems(data, w).len() == data.len() * w,
    decreases data.len(),
{
    if data.len() == 0 {
        assert(0nat * w == 0) by (nonlinear_arith);
    } else {
        let d = data.drop_first();
        assert(forall|i: int| 0 <= i < d.len() ==> (#[trigger] d[i]).len() <= w);
        lemma_enc_elems_len(d, w);
        lemma_pad_val(data[0], w);
        assert(w + (data.len() - 1) * w == data.len() * w) by (nonlinear_arith);
    }
}

/// The window of the `i`-th element inside the element segment.
pub proof fn lemma_enc_elems_index(data: Seq<Seq<u8>>, w: nat, i: int)
    requires
        forall|k: int| 0 <= k < data.len() ==> (#[trigger] data[k]).len() <= w,
        0 <= i < data.len(),
    ensures
        enc_elems(data, w).subrange(i * w, (i + 1) * w) == pad_spec(data[i], w),
    decreases i,
{
    lemma_enc_elems_len(data, w);
    let e = enc_elems(data, w);
    lemma_pad_val(data[0], w);
    assert(0 <= i * w && i * w + w == (i + 1) * w && (i + 1) * w <= data.len() * w)
        by (nonlinear_arith)
        requires
            0 <= i < data.len(),
            w >= 0,
    ;
    if i == 0 {
        assert(i * w == 0) by (nonlinear_arith)
            requires
                i == 0,
        ;
        assert(e.subrange(0, w as int) =~= pad_spec(data[0], w));
    } else {
        let d = data.drop_first();
        assert(forall|k: int| 0 <= k < d.len() ==> (#[trigger] d[k]).len() <= w);
        lemma_enc_elems_index(d, w, i - 1);
        lemma_enc_elems_len(d, w);
        assert(0 <= (i - 1) * w && (i - 1) * w + w == i * w && i * w + w == (i + 1) * w && (i + 1)
            * w <= data.len() * w && i * w <= data.len() * w) by (nonlinear_arith)
            requires
                1 <= i < data.len(),
                w >= 0,
        ;
        assert(e.subrange(i * w, (i + 1) * w) =~= enc_elems(d, w).subrange(
            (i - 1) * w,
            ((i - 1) + 1) * w,
        ));
    }
}

/// Decoding an encoded well-formed vector gives the vector back, whatever
/// follows it in the buffer.
pub proof fn lemma_dec_enc_many(m: MaskManyV, rest: Seq<u8>)
    requires
        many_v_wf(m),
    ensures
        enc_many(m).len() == enc_many_len(m),
        dec_many(enc_many(m) + rest) == Ok::<(MaskManyV, nat), DecodeError>((m, enc_many_len(m))),
{
    let w = m.order.len();
    let cnt = m.data.len();
    let s = enc_many(m) + rest;
    lemma_elements_fit(m.data, m.order);
    lemma_enc_elems_len(m.data, w);
    lemma_enc_u32_val(w);
    lemma_enc_u32_val(cnt);
    assert(8 + w + cnt * w == 8 + w * (cnt + 1)) by (nonlinear_arith);
    assert(enc_many(m).len() == enc_many_len(m));
    assert(s.subrange(0, 4) =~= enc_u32(w));
    assert(s.subrange(4, 8) =~= enc_u32(cnt));
    assert(le_val(s.subrange(0, 4)) == w);
    assert(le_val(s.subrange(4, 8)) == cnt);
    assert(s.len() >= 8 + w * (cnt + 1));
    assert(dec_len(s) == Ok::<nat, DecodeError>(8 + w * (cnt + 1)));
    assert(s.subrange(8, 8 + w as int) =~= m.order);
    let data = dec_elems(s, w, cnt);
    assert forall|i: int| 0 <= i < cnt implies data[i] == m.data[i] by {
        assert(0 <= i * w && i * w + w == (i + 1) * w && (i + 1) * w <= cnt * w)
            by (nonlinear_arith)
            requires
                0 <= i < cnt,
                w >= 1,
        ;
        assert(s.subrange(8 + w as int + i * w, 8 + w as int + (i + 1) * w) =~= enc_elems(
            m.data,
            w,
        ).subrange(i * w, (i + 1) * w));
        lemma_enc_elems_index(m.data, w, i);
        lemma_strip_pad(m.data[i], w);
    }
    assert(data =~= m.data);
    assert(MaskManyV { data, order: s.subrange(8, 8 + w as int) } == m);
    assert(forall|i: int| 0 <= i < cnt ==> le_val(#[trigger] data[i]) < le_val(m.order));
}

/// Appending one element's padded bytes extends the element segment.
proof fn lemma_enc_elems_snoc(data: Seq<Seq<u8>>, w: nat, i: int)
    requires
        0 <= i < data.len(),
    ensures
        enc_elems(data.take(i + 1), w) == enc_elems(data.take(i), w) + pad_spec(data[i], w),
    decreases i,
{
    if i == 0 {
        assert(data.take(1).drop_first() =~= Seq::<Seq<u8>>::empty());
        assert(data.take(1)[0] == data[0]);
        assert(data.take(0) =~= Seq::<Seq<u8>>::empty());
        assert(enc_elems(Seq::<Seq<u8>>::empty(), w) == Seq::<u8>::empty());
        assert(enc_elems(data.take(1), w) == pad_spec(data.take(1)[0], w) + enc_elems(
            data.take(1).drop_first(),
            w,
        ));
        assert(enc_elems(data.take(1), w) =~= enc_elems(data.take(0), w) + pad_spec(data[0], w));
    } else {
        let d = data.drop_first();
        lemma_enc_elems_snoc(d, w, i - 1);
        assert(data.take(i + 1).drop_first() =~= d.take(i));
        assert(data.take(i).drop_first() =~= d.take(i - 1));
        assert(d[i - 1] == data[i]);
        assert(enc_elems(data.take(i + 1), w) =~= enc_elems(data.take(i), w) + pad_spec(
            data[i],
            w,
        ));
    }
}

/// Decoding an encoded well-formed scalar gives the scalar back.
pub proof fn lemma_dec_enc_one(o: MaskOneV, rest: Seq<u8>)
    requires
        one_v_wf(o),
    ensures
        enc_one(o).len() == 8 + o.order.len() * 2,
        dec_one(enc_one(o) + rest) == Ok::<(MaskOneV, nat), DecodeError>(
            (o, 8 + o.order.len() * 2),
        ),
{
    let m = MaskManyV { data: seq![o.data], order: o.order };
    lemma_dec_enc_many(m, rest);
    assert(m.data.len() == 1);
    assert(enc_many_len(m) == 8 + o.order.len() * 2);
    assert(MaskOneV { data: m.data[0], order: m.order } == o);
}

/// Copies `buf[a..b]` into a fresh vector.
pub fn copy_range(buf: &Vec<u8>, a: usize, b: usize) -> (r: Vec<u8>)
    requires
        a <= b <= buf@.len(),
    ensures
        r@ == buf@.subrange(a as int, b as int),
{
    let mut out: Vec<u8> = Vec::new();
    let mut i: usize = a;
    while i < b
        invariant
            a <= i <= b <= buf@.len(),
            out@ == buf@.subrange(a as int, i as int),
        decreases b - i,
    {
        out.push(buf[i]);
        proof {
            assert(buf@.subrange(a as int, i as int).push(buf@[i as int]) =~= buf@.subrange(
                a as int,
                i + 1,
            ));
        }
        i += 1;
    }
    out
}

/// Appends all bytes of `src` to `out`.
pub fn append_bytes(out: &mut Vec<u8>, src: &Vec<u8>)
    ensures
        final(out)@ == old(out)@ + src@,
{
    let mut i: usize = 0;
    while i < src.len()
        invariant
            i <= src@.len(),
            out@ == old(out)@ + src@.subrange(0, i as int),
        decreases src@.len() - i,
    {
        out.push(src[i]);
        proof {
            assert((old(out)@ + src@.subrange(0, i as int)).push(src@[i as int]) =~= old(out)@
                + src@.subrange(0, i + 1));
        }
        i += 1;
    }
    proof {
        assert(old(out)@ + src@.subrange(0, src@.len() as int) =~= old(out)@ + src@);
    }
}

/// Reads the 4-byte little-endian number at `off`.
pub fn read_u32_le(buf: &Vec<u8>, off: usize) -> (r: u32)
    requires
        off + 4 <= buf@.len(),
    ensures
        r as nat == le_val(buf@.subrange(off as int, off as int + 4)),
{
    let n = buf.len();
    let b0 = buf[off] as u32;
    let b1 = buf[off + 1] as u32;
    let b2 = buf[off + 2] as u32;
    let b3 = buf[off + 3] as u32;
    proof {
        lemma_le_val4(buf@.subrange(off as int, off as int + 4));
    }
    b0 + 256 * b1 + 65536 * b2 + 16777216 * b3
}

/// Appends the 4-byte little-endian form of `x` to `out`.
pub fn push_u32_le(out: &mut Vec<u8>, x: u32)
    ensures
        final(out)@ == old(out)@ + enc_u32(x as nat),
{
    out.push((x % 256) as u8);
    out.push(((x / 256) % 256) as u8);
    out.push(((x / 256 / 256) % 256) as u8);
    out.push(((x / 256 / 256 / 256) % 256) as u8);
    proof {
        assert(out@ =~= old(out)@ + enc_u32(x as nat));
    }
}

/// Probes the length of the mask object that starts at `off`, from its header
/// alone.
pub fn mask_object_len(buf: &Vec<u8>, off: usize) -> (r: Result<usize, DecodeError>)
    requires
        off <= buf@.len(),
    ensures
        ({
            let d = dec_len(buf@.skip(off as int));
            match r {
                Ok(n) => d == Ok::<nat, DecodeError>(n as nat),
                Err(e) => d == Err::<nat, DecodeError>(e),
            }
        }),
{
    let ghost tail = buf@.skip(off as int);
    let avail = buf.len() - off;
    if avail < 8 {
        return Err(DecodeError::BufferTooShort);
    }
    let w = read_u32_le(buf, off);
    let cnt = read_u32_le(buf, off + 4);
    proof {
        assert(buf@.subrange(off as int, off as int + 4) =~= tail.subrange(0, 4));
        assert(buf@.subrange(off as int + 4, off as int + 8) =~= tail.subrange(4, 8));
    }
    proof {
        let ww = w as int;
        let cc = cnt as int;
        assert(ww * (cc + 1) <= 0xffffffff * 0x100000000) by (nonlinear_arith)
            requires
                0 <= ww <= 0xffffffff,
                0 <= cc <= 0xffffffff,
        ;
    }
    let total: u128 = 8u128 + (w as u128) * (cnt as u128 + 1);
    if (avail as u128) < total {
        return Err(DecodeError::BufferTooShort);
    }
    Ok(total as usize)
}

/// Encodes a vector mask object.
pub fn encode_mask_many(m: &MaskMany) -> (r: Vec<u8>)
    requires
        many_v_wf(m@),
        enc_many_len(m@) <= usize::MAX,
    ensures
        r@ == enc_many(m@),
        r@.len() == enc_many_len(m@),
{
    let w = m.config.order.len();
    let cnt = m.data.len();
    proof {
        lemma_elements_fit(m@.data, m@.order);
        lemma_enc_elems_len(m@.data, w as nat);
    }
    let mut out: Vec<u8> = Vec::new();
    push_u32_le(&mut out, w as u32);
    push_u32_le(&mut out, cnt as u32);
    append_bytes(&mut out, &m.config.order);
    proof {
        assert(m@.data.take(0) =~= Seq::<Seq<u8>>::empty());
        assert(out@ =~= enc_u32(w as nat) + enc_u32(cnt as nat) + m@.order + enc_elems(
            m@.data.take(0),
            w as nat,
        ));
    }
    let mut i: usize = 0;
    while i < cnt
        invariant
            i <= cnt,
            cnt == m@.data.len(),
            w == m@.order.len(),
            many_v_wf(m@),
            forall|k: int| 0 <= k < cnt ==> (#[trigger] m@.data[k]).len() <= w as nat,
            out@ == enc_u32(w as nat) + enc_u32(cnt as nat) + m@.order + enc_elems(
                m@.data.take(i as int),
                w as nat,
            ),
        decreases cnt - i,
    {
        proof {
            assert(m@.data[i as int] == m.data@[i as int]@);
        }
        let padded = crate::bignum::pad_to(&m.data[i], w);
        proof {
            assert(padded@ =~= pad_spec(m@.data[i as int], w as nat));
        }
        append_bytes(&mut out, &padded);
        proof {
            lemma_enc_elems_snoc(m@.data, w as nat, i as int);
            assert(out@ =~= enc_u32(w as nat) + enc_u32(cnt as nat) + m@.order + enc_elems(
                m@.data.take(i + 1),
                w as nat,
            ));
        }
        i += 1;
    }
    proof {
        assert(m@.data.take(cnt as int) =~= m@.data);
        lemma_enc_elems_len(m@.data, w as nat);
        assert((w as nat) + (cnt as nat) * (w as nat) == (w as nat) * ((cnt as nat) + 1))
            by (nonlinear_arith);
    }
    out
}

/// Encodes a scalar mask object as a vector of one element.
pub fn encode_mask_one(o: &MaskOne) -> (r: Vec<u8>)
    requires
        one_v_wf(o@),
        8 + o@.order.len() * 2 <= usize::MAX,
    ensures
        r@ == enc_one(o@),
{
    let mut single: Vec<Vec<u8>> = Vec::new();
    single.push(copy_bytes(&o.data));
    let mm = MaskMany { data: single, config: o.config.duplicate() };
    proof {
        assert(mm.data@.len() == 1);
        assert(mm@.data[0] =~= o@.data);
        assert(mm@.data =~= seq![o@.data]);
        assert(mm@ == MaskManyV { data: seq![o@.data], order: o@.order });
        assert(enc_many_len(mm@) == 8 + o@.order.len() * 2);
    }
    encode_mask_many(&mm)
}

/// Decodes the vector mask object that starts at `off`, returning it with the
/// number of bytes it occupies.
pub fn decode_mask_many(buf: &Vec<u8>, off: usize) -> (r: Result<(MaskMany, usize), DecodeError>)
    requires
        off <= buf@.len(),
    ensures
        ({
            let d = dec_many(buf@.skip(off as int));
            match r {
                Ok(p) => {
                    &&& d is Ok
                    &&& p.0@ == d->Ok_0.0
                    &&& p.1 as nat == d->Ok_0.1
                    &&& p.0.valid()
                    &&& off + p.1 <= buf@.len()
                },
                Err(e) => d == Err::<(MaskManyV, nat), DecodeError>(e),
            }
        }),
{
    let ghost tail = buf@.skip(off as int);
    let n = buf.len();
    let total = match mask_object_len(buf, off) {
        Ok(t) => t,
        Err(e) => {
            return Err(e);
        },
    };
    proof {
        assert(tail.len() == n - off);
        assert(off + total <= n);
    }
    let w = read_u32_le(buf, off) as usize;
    let cnt = read_u32_le(buf, off + 4) as usize;
    proof {
        assert(buf@.subrange(off as int, off as int + 4) =~= tail.subrange(0, 4));
        assert(buf@.subrange(off as int + 4, off as int + 8) =~= tail.subrange(4, 8));
        assert(total as nat == 8 + (w as nat) * (cnt as nat + 1));
        assert((w as int) * (cnt as int + 1) >= w as int) by (nonlinear_arith)
            requires
                cnt as int + 1 >= 1,
                w as int >= 0,
        ;
        assert(off + 8 + w <= off + total);
    }
    let order = copy_range(buf, off + 8, off + 8 + w);
    proof {
        assert(order@ =~= tail.subrange(8, 8 + w as int));
    }
    if !(is_canonical(&order) && w >= 1) {
        return Err(DecodeError::ConfigMismatch);
    }
    let ghost delems = dec_elems(tail, w as nat, cnt as nat);
    let mut data: Vec<Vec<u8>> = Vec::new();
    let mut pos: usize = off + 8 + w;
    let mut i: usize = 0;
    proof {
        assert(0 * (w as int) == 0) by (nonlinear_arith);
    }
    while i < cnt
        invariant
            i <= cnt,
            data@.len() == i,
            pos as int == off + 8 + w + i * w,
            n == buf@.len(),
            off + total <= n,
            total as nat == 8 + (w as nat) * (cnt as nat + 1),
            8 + w <= total,
            w >= 1,
            tail == buf@.skip(off as int),
            off <= buf@.len(),
            le_val(tail.subrange(0, 4)) == w as nat,
            le_val(tail.subrange(4, 8)) == cnt as nat,
            dec_len(tail) == Ok::<nat, DecodeError>(total as nat),
            delems == dec_elems(tail, w as nat, cnt as nat),
            canonical(order@),
            order@ == tail.subrange(8, 8 + w as int),
            forall|j: int|
                0 <= j < i ==> data@[j as int]@ == delems[j] && le_val(#[trigger] delems[j])
                    < le_val(order@),
        decreases cnt - i,
    {
        proof {
            assert((i + 1) * (w as int) == i * w + w && (i + 1) * (w as int) <= (cnt as int) * w
                && 8 + w + (cnt as int) * w == total && i * w >= 0) by (nonlinear_arith)
                requires
                    0 <= i < cnt,
                    w >= 1,
                    total as int == 8 + w * (cnt as int + 1),
            ;
            assert(pos + w <= off + total);
        }
        let elem_raw = copy_range(buf, pos, pos + w);
        proof {
            assert(elem_raw@ =~= tail.subrange(
                8 + w as int + i as int * w,
                8 + w as int + (i as int + 1) * w,
            ));
        }
        let elem = strip(elem_raw);
        if !num_lt(&elem, &order) {
            proof {
                assert(delems[i as int] == elem@);
                assert(!(forall|k: int|
                    0 <= k < cnt ==> le_val(#[trigger] delems[k]) < le_val(order@)));
            }
            return Err(DecodeError::ElementExceedsModulus);
        }
        data.push(elem);
        pos += w;
        i += 1;
    }
    let m = MaskMany { data, config: MaskConfig { order } };
    proof {
        assert forall|j: int| 0 <= j < cnt implies m@.data[j] == delems[j] by {
            assert(m@.data[j] =~= m.data@[j]@);
            assert(m.data@[j]@ == delems[j]);
        }
        assert(m@.data =~= delems);
        assert(m@ == MaskManyV { data: delems, order: tail.subrange(8, 8 + w as int) });
        assert(forall|k: int|
            0 <= k < cnt ==> le_val(#[trigger] delems[k]) < le_val(order@));
        lemma_strip_all_canonical(tail, w as nat, cnt as nat);
    }
    Ok((m, total))
}

/// Every decoded element is canonical.
proof fn lemma_strip_all_canonical(s: Seq<u8>, w: nat, cnt: nat)
    ensures
        forall|i: int|
            0 <= i < cnt ==> canonical(#[trigger] dec_elems(s, w, cnt)[i]),
{
    assert forall|i: int| 0 <= i < cnt implies canonical(
        #[trigger] dec_elems(s, w, cnt)[i],
    ) by {
        lemma_strip_spec(s.subrange(8 + w + i * w, 8 + w + (i + 1) * w));
    }
}

/// Decodes the scalar mask object that starts at `off`.
pub fn decode_mask_one(buf: &Vec<u8>, off: usize) -> (r: Result<(MaskOne, usize), DecodeError>)
    requires
        off <= buf@.len(),
    ensures
        ({
            let d = dec_one(buf@.skip(off as int));
            match r {
                Ok(p) => {
                    &&& d is Ok
                    &&& p.0@ == d->Ok_0.0
                    &&& p.1 as nat == d->Ok_0.1
                    &&& p.0.valid()
                    &&& off + p.1 <= buf@.len()
                },
                Err(e) => d == Err::<(MaskOneV, nat), DecodeError>(e),
            }
        }),
{
    let (m, n) = match decode_mask_many(buf, off) {
        Ok(p) => p,
        Err(e) => {
            return Err(e);
        },
    };
    if m.data.len() != 1 {
        return Err(DecodeError::ConfigMismatch);
    }
    let ghost mv = m@;
    let MaskMany { mut data, config } = m;
    let elem = data.remove(0);
    let o = MaskOne { data: elem, config };
    proof {
        assert(mv.data[0] =~= elem@);
        assert(o@ == MaskOneV { data: mv.data[0], order: mv.order });
    }
    Ok((o, n))
}

} // verus!
