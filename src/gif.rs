use vstd::prelude::*;

use crate::png::{le16, push_all, push_le16};

verus! {

/// The LZW Clear code for minimum code size 8.
pub const LZW_CLEAR: u16 = 256;

/// The LZW End-of-Information code for minimum code size 8.
pub const LZW_END: u16 = 257;

/// Width in bits of every emitted code.
pub const LZW_CODE_BITS: u32 = 9;

/// The palette whose entry `i` is the gray `(i, i, i)`.
pub open spec fn gray_palette() -> Seq<u8> {
    Seq::new(768, |i: int| (i / 3) as u8)
}

/// The codes that stand for `data`: each byte as a literal followed by a Clear.
pub open spec fn literal_codes(data: Seq<u8>) -> Seq<u16>
    decreases data.len(),
{
    if data.len() == 0 {
        Seq::empty()
    } else {
        literal_codes(data.drop_last()) + seq![data.last() as u16, LZW_CLEAR]
    }
}

/// The full code sequence of a frame: Clear, the literals each followed by Clear, then
/// End-of-Information.
pub open spec fn lzw_codes(data: Seq<u8>) -> Seq<u16> {
    seq![LZW_CLEAR] + literal_codes(data) + seq![LZW_END]
}

/// The low `n` bits of `v`, least significant first.
pub open spec fn low_bits(v: u32, n: nat) -> Seq<bool> {
    Seq::new(n, |i: int| (v >> (i as u32)) & 1 == 1)
}

/// The bits of a sequence of 9-bit codes, each least significant bit first.
pub open spec fn code_stream(codes: Seq<u16>) -> Seq<bool>
    decreases codes.len(),
{
    if codes.len() == 0 {
        Seq::empty()
    } else {
        code_stream(codes.drop_last()) + low_bits(codes.last() as u32, 9)
    }
}

/// The bits of a byte sequence, each byte least significant bit first.
pub open spec fn byte_stream(bytes: Seq<u8>) -> Seq<bool>
    decreases bytes.len(),
{
    if bytes.len() == 0 {
        Seq::empty()
    } else {
        byte_stream(bytes.drop_last()) + low_bits(bytes.last() as u32, 8)
    }
}

/// `bits` followed by zero bits up to the next multiple of 8.
pub open spec fn pad_to_bytes(bits: Seq<bool>) -> Seq<bool> {
    bits + Seq::new(((8 - bits.len() % 8) % 8) as nat, |i: int| false)
}

/// The sub-blocks that carry `data` from `pos` on: at most 255 bytes each, behind
/// their length byte.
pub open spec fn sub_blocks_from(data: Seq<u8>, pos: int) -> Seq<u8>
    decreases data.len() - pos,
{
    if pos < 0 || pos >= data.len() {
        Seq::empty()
    } else {
        let n = if data.len() - pos > 255 {
            255
        } else {
            data.len() - pos
        };
        seq![n as u8] + data.subrange(pos, pos + n) + sub_blocks_from(data, pos + n)
    }
}

/// A byte sequence whose bit stream, least significant bit first, is exactly the bit
/// stream of the codes of `data`, padded with zero bits to whole bytes.
pub open spec fn is_lzw_output(data: Seq<u8>, out: Seq<u8>) -> bool {
    byte_stream(out) == pad_to_bytes(code_stream(lzw_codes(data)))
}

/// A palette of 256 gray levels, each repeated for red, green and blue.
pub fn py_grayscale_palette() -> (r: Vec<u8>)
    ensures
        r@ == gray_palette(),
{
    let mut p = Vec::<u8>::new();
    let mut i: u16 = 0;
    while i < 256
        invariant
            i <= 256,
            p@ == Seq::new(3 * i as nat, |k: int| (k / 3) as u8),
        decreases 256 - i,
    {
        let v = i as u8;
        p.push(v);
        p.push(v);
        p.push(v);
        i = i + 1;
        assert(p@ =~= Seq::new(3 * i as nat, |k: int| (k / 3) as u8));
    }
    p
}

proof fn lemma_low_bits_or(b: u32, c: u32, bc: u32)
    requires
        bc < 8,
        b < (1u32 << bc),
        c < 512,
    ensures
        (b | (c << bc)) < (1u32 << (bc + 9)),
        low_bits(b | (c << bc), (bc + 9) as nat) == low_bits(b, bc as nat) + low_bits(c, 9),
{
    let v = b | (c << bc);
    assert(v < (1u32 << (bc + 9))) by (bit_vector)
        requires
            bc < 8,
            b < (1u32 << bc),
            c < 512,
            v == b | (c << bc),
    ;
    assert forall|i: u32| i < bc implies (v >> i) & 1 == (b >> i) & 1 by {
        assert((v >> i) & 1 == (b >> i) & 1) by (bit_vector)
            requires
                bc < 8,
                b < (1u32 << bc),
                c < 512,
                v == b | (c << bc),
                i < bc,
        ;
    }
    assert forall|j: u32| j < 9 implies (v >> (bc + j)) & 1 == (c >> j) & 1 by {
        assert((v >> (bc + j)) & 1 == (c >> j) & 1) by (bit_vector)
            requires
                bc < 8,
                b < (1u32 << bc),
                c < 512,
                v == b | (c << bc),
                j < 9,
        ;
    }
    let lhs = low_bits(v, (bc + 9) as nat);
    let rhs = low_bits(b, bc as nat) + low_bits(c, 9);
    assert forall|k: int| 0 <= k < lhs.len() implies lhs[k] == rhs[k] by {
        if k < bc {
            assert((v >> (k as u32)) & 1 == (b >> (k as u32)) & 1);
        } else {
            let j = (k - bc) as u32;
            assert((v >> (bc + j)) & 1 == (c >> j) & 1);
            assert((bc + j) as u32 == k as u32);
        }
    }
    assert(lhs =~= rhs);
}

proof fn lemma_low_bits_split(v: u32, n: u32)
    requires
        8 <= n <= 16,
        v < (1u32 << n),
    ensures
        (v >> 8u32) < (1u32 << (n - 8) as u32),
        (v & 0xFF) < 256,
        low_bits(v, n as nat) == low_bits(v & 0xFF, 8) + low_bits(v >> 8u32, (n - 8) as nat),
{
    let lo = v & 0xFF;
    let hi = v >> 8u32;
    assert(hi < (1u32 << (n - 8) as u32) && lo < 256) by (bit_vector)
        requires
            8 <= n <= 16,
            v < (1u32 << n),
            lo == v & 0xFF,
            hi == v >> 8u32,
    ;
    assert forall|i: u32| i < 8 implies (lo >> i) & 1 == (v >> i) & 1 by {
        assert((lo >> i) & 1 == (v >> i) & 1) by (bit_vector)
            requires
                lo == v & 0xFF,
                i < 8,
        ;
    }
    assert forall|j: u32| j < 8 implies (hi >> j) & 1 == (v >> (j + 8)) & 1 by {
        assert((hi >> j) & 1 == (v >> (j + 8)) & 1) by (bit_vector)
            requires
                hi == v >> 8u32,
                j < 8,
        ;
    }
    let lhs = low_bits(v, n as nat);
    let rhs = low_bits(lo, 8) + low_bits(hi, (n - 8) as nat);
    assert forall|k: int| 0 <= k < lhs.len() implies lhs[k] == rhs[k] by {
        if k < 8 {
            assert((lo >> (k as u32)) & 1 == (v >> (k as u32)) & 1);
        } else {
            let j = (k - 8) as u32;
            assert((hi >> j) & 1 == (v >> (j + 8)) & 1);
            assert((j + 8) as u32 == k as u32);
        }
    }
    assert(lhs =~= rhs);
}

proof fn lemma_low_bits_pad(v: u32, n: u32)
    requires
        0 < n < 8,
        v < (1u32 << n),
    ensures
        v & 0xFF == v,
        v < 256,
        low_bits(v, 8) == low_bits(v, n as nat) + Seq::new((8 - n) as nat, |i: int| false),
{
    assert(v & 0xFF == v && v < 256) by (bit_vector)
        requires
            n < 8,
            v < (1u32 << n),
    ;
    assert forall|i: u32| n <= i < 8 implies (v >> i) & 1 == 0 by {
        assert((v >> i) & 1 == 0) by (bit_vector)
            requires
                v < (1u32 << n),
                n <= i,
                i < 8,
        ;
    }
    let lhs = low_bits(v, 8);
    let rhs = low_bits(v, n as nat) + Seq::new((8 - n) as nat, |i: int| false);
    assert forall|k: int| 0 <= k < 8 implies lhs[k] == rhs[k] by {
        if k >= n {
            assert((v >> (k as u32)) & 1 == 0);
        }
    }
    assert(lhs =~= rhs);
}

/// Appends one 9-bit code to the bit buffer and moves every whole byte into `out`.
fn emit_code(code: u16, out: &mut Vec<u8>, buf: &mut u32, count: &mut u32)
    requires
        code < 512,
        *old(count) < 8,
        *old(buf) < (1u32 << *old(count)),
    ensures
        *final(count) < 8,
        *final(buf) < (1u32 << *final(count)),
        byte_stream(final(out)@) + low_bits(*final(buf), *final(count) as nat) == byte_stream(
            old(out)@,
        ) + low_bits(*old(buf), *old(count) as nat) + low_bits(code as u32, 9),
{
    proof {
        lemma_low_bits_or(*buf, code as u32, *count);
    }
    *buf = *buf | ((code as u32) << *count);
    *count = *count + LZW_CODE_BITS;
    while *count >= 8
        invariant
            *count <= 16,
            *buf < (1u32 << *count),
            byte_stream(out@) + low_bits(*buf, *count as nat) == byte_stream(old(out)@)
                + low_bits(*old(buf), *old(count) as nat) + low_bits(code as u32, 9),
        decreases *count,
    {
        let ghost before = out@;
        let ghost whole = *buf;
        let ghost bits = *count;
        proof {
            lemma_low_bits_split(*buf, *count);
        }
        out.push((*buf & 0xFF) as u8);
        assert(out@.drop_last() =~= before);
        *buf = *buf >> 8;
        *count = *count - 8;
        assert(byte_stream(out@) + low_bits(*buf, *count as nat) =~= byte_stream(before)
            + low_bits(whole, bits as nat));
    }
}

proof fn lemma_byte_stream_len(bytes: Seq<u8>)
    ensures
        byte_stream(bytes).len() == 8 * bytes.len(),
    decreases bytes.len(),
{
    if bytes.len() > 0 {
        lemma_byte_stream_len(bytes.drop_last());
    }
}

proof fn lemma_code_stream_push(codes: Seq<u16>, c: u16)
    ensures
        code_stream(codes.push(c)) == code_stream(codes) + low_bits(c as u32, 9),
{
    assert(codes.push(c).drop_last() =~= codes);
}

/// LZW-encodes a frame for minimum code size 8 without compression: Clear, then each
/// byte as a literal followed by Clear, then End-of-Information, packed as 9-bit codes
/// least significant bit first. An empty frame gives Clear then End-of-Information.
pub fn gif_lzw_encode(data: &[u8]) -> (r: Vec<u8>)
    ensures
        is_lzw_output(data@, r@),
{
    let mut out = Vec::<u8>::new();
    let mut buf: u32 = 0;
    let mut count: u32 = 0;
    assert(0u32 < (1u32 << 0u32)) by (bit_vector);
    assert(byte_stream(out@) + low_bits(buf, count as nat) =~= Seq::<bool>::empty());
    emit_code(LZW_CLEAR, &mut out, &mut buf, &mut count);
    proof {
        lemma_code_stream_push(Seq::empty(), LZW_CLEAR);
        assert(Seq::<u16>::empty().push(LZW_CLEAR) =~= seq![LZW_CLEAR]);
        assert(data@.subrange(0, 0) =~= Seq::<u8>::empty());
        assert(seq![LZW_CLEAR] + literal_codes(data@.subrange(0, 0)) =~= seq![LZW_CLEAR]);
    }
    let mut i: usize = 0;
    while i < data.len()
        invariant
            i <= data.len(),
            count < 8,
            buf < (1u32 << count),
            byte_stream(out@) + low_bits(buf, count as nat) == code_stream(
                seq![LZW_CLEAR] + literal_codes(data@.subrange(0, i as int)),
            ),
        decreases data.len() - i,
    {
        let ghost prefix = seq![LZW_CLEAR] + literal_codes(data@.subrange(0, i as int));
        let v = data[i];
        emit_code(v as u16, &mut out, &mut buf, &mut count);
        emit_code(LZW_CLEAR, &mut out, &mut buf, &mut count);
        proof {
            lemma_code_stream_push(prefix, v as u16);
            lemma_code_stream_push(prefix.push(v as u16), LZW_CLEAR);
            assert(data@.subrange(0, i + 1).drop_last() =~= data@.subrange(0, i as int));
            assert(seq![LZW_CLEAR] + literal_codes(data@.subrange(0, i + 1)) =~= prefix.push(
                v as u16,
            ).push(LZW_CLEAR));
        }
        i = i + 1;
    }
    let ghost body = seq![LZW_CLEAR] + literal_codes(data@);
    assert(data@.subrange(0, data.len() as int) =~= data@);
    emit_code(LZW_END, &mut out, &mut buf, &mut count);
    proof {
        lemma_code_stream_push(body, LZW_END);
        assert(body.push(LZW_END) =~= lzw_codes(data@));
        lemma_byte_stream_len(out@);
    }
    let ghost stream = code_stream(lzw_codes(data@));
    if count > 0 {
        let ghost before = out@;
        proof {
            lemma_low_bits_pad(buf, count);
        }
        out.push((buf & 0xFF) as u8);
        assert(out@.drop_last() =~= before);
        assert(stream.len() % 8 == count);
        let ghost last = (buf & 0xFF) as u8;
        assert(last as u32 == buf);
        assert(byte_stream(out@) == byte_stream(before) + low_bits(buf, 8));
        assert(((8 - stream.len() % 8) % 8) as nat == (8 - count) as nat);
        assert(byte_stream(out@) =~= pad_to_bytes(stream));
    } else {
        assert(byte_stream(out@) =~= pad_to_bytes(stream));
    }
    out
}

proof fn lemma_low_bits_byte_injective(a: u8, b: u8)
    requires
        low_bits(a as u32, 8) == low_bits(b as u32, 8),
    ensures
        a == b,
{
    let x = a as u32;
    let y = b as u32;
    assert forall|i: u32| i < 8 implies (x >> i) & 1 == (y >> i) & 1 by {
        assert(low_bits(x, 8)[i as int] == low_bits(y, 8)[i as int]);
        assert(((x >> i) & 1 == 1) == ((y >> i) & 1 == 1));
        assert((x >> i) & 1 == 1 || (x >> i) & 1 == 0) by (bit_vector);
        assert((y >> i) & 1 == 1 || (y >> i) & 1 == 0) by (bit_vector);
    }
    assert(x == y) by (bit_vector)
        requires
            x < 256,
            y < 256,
            (x >> 0u32) & 1 == (y >> 0u32) & 1,
            (x >> 1u32) & 1 == (y >> 1u32) & 1,
            (x >> 2u32) & 1 == (y >> 2u32) & 1,
            (x >> 3u32) & 1 == (y >> 3u32) & 1,
            (x >> 4u32) & 1 == (y >> 4u32) & 1,
            (x >> 5u32) & 1 == (y >> 5u32) & 1,
            (x >> 6u32) & 1 == (y >> 6u32) & 1,
            (x >> 7u32) & 1 == (y >> 7u32) & 1,
    ;
}

/// Different byte sequences have different bit streams.
proof fn lemma_byte_stream_injective(a: Seq<u8>, b: Seq<u8>)
    requires
        byte_stream(a) == byte_stream(b),
    ensures
        a == b,
    decreases a.len(),
{
    lemma_byte_stream_len(a);
    lemma_byte_stream_len(b);
    if a.len() > 0 {
        let pa = byte_stream(a.drop_last());
        let pb = byte_stream(b.drop_last());
        lemma_byte_stream_len(a.drop_last());
        lemma_byte_stream_len(b.drop_last());
        assert(pa =~= byte_stream(a).subrange(0, pa.len() as int));
        assert(pb =~= byte_stream(b).subrange(0, pb.len() as int));
        lemma_byte_stream_injective(a.drop_last(), b.drop_last());
        let n = pa.len() as int;
        assert(low_bits(a.last() as u32, 8) =~= byte_stream(a).subrange(n, n + 8));
        assert(low_bits(b.last() as u32, 8) =~= byte_stream(b).subrange(n, n + 8));
        lemma_low_bits_byte_injective(a.last(), b.last());
        assert(a =~= a.drop_last().push(a.last()));
        assert(b =~= b.drop_last().push(b.last()));
    } else {
        assert(a =~= b);
    }
}

/// The LZW data of a frame: the one byte sequence that `is_lzw_output` admits.
pub open spec fn lzw_data(data: Seq<u8>) -> Seq<u8> {
    choose|out: Seq<u8>| is_lzw_output(data, out)
}

/// `GIF89a`.
pub open spec fn gif_signature() -> Seq<u8> {
    seq![0x47u8, 0x49u8, 0x46u8, 0x38u8, 0x39u8, 0x61u8]
}

/// `NETSCAPE2.0`.
pub open spec fn netscape_id() -> Seq<u8> {
    seq![0x4Eu8, 0x45u8, 0x54u8, 0x53u8, 0x43u8, 0x41u8, 0x50u8, 0x45u8, 0x32u8, 0x2Eu8, 0x30u8]
}

/// The low 16 bits of `x`, as a two's-complement value cut to 16 bits keeps them.
pub open spec fn low16(x: int) -> int {
    x % 0x10000
}

/// The low 16 bits of `x`.
fn low16_of(x: i64) -> (r: u16)
    ensures
        r == low16(x as int),
{
    if x >= 0 {
        (x % 0x10000) as u16
    } else {
        let y: i64 = -(x + 1);
        let m = y % 0x10000;
        proof {
            let q = y as int / 0x10000;
            vstd::arithmetic::div_mod::lemma_fundamental_div_mod(y as int, 0x10000);
            vstd::arithmetic::div_mod::lemma_fundamental_div_mod_converse(
                x as int,
                0x10000,
                -(q + 1),
                0xFFFF - m,
            );
        }
        (0xFFFF - m) as u16
    }
}

/// Signature, logical screen descriptor with a 256-entry global palette, the palette,
/// and the looping application extension.
pub open spec fn gif_header(width: int, height: int, palette: Seq<u8>, loop_count: int) -> Seq<
    u8,
> {
    gif_signature() + le16(width) + le16(height) + seq![0xF7u8, 0u8, 0u8] + palette + seq![
        0x21u8,
        0xFFu8,
        0x0Bu8,
    ] + netscape_id() + seq![0x03u8, 0x01u8] + le16(low16(loop_count)) + seq![0u8]
}

/// One frame: graphic control extension with the delay, image descriptor covering the
/// screen, minimum code size 8, the LZW data in sub-blocks, and the block terminator.
pub open spec fn frame_bytes(width: int, height: int, delay_cs: int, frame: Seq<u8>) -> Seq<u8> {
    seq![0x21u8, 0xF9u8, 0x04u8, 0x00u8] + le16(low16(delay_cs)) + seq![0u8, 0u8, 0x2Cu8] + le16(0)
        + le16(0) + le16(width) + le16(height) + seq![0u8, 8u8] + sub_blocks_from(
        lzw_data(frame),
        0,
    ) + seq![0u8]
}

/// The frames one after another.
pub open spec fn frames_bytes(width: int, height: int, delay_cs: int, frames: Seq<Vec<u8>>) -> Seq<
    u8,
>
    decreases frames.len(),
{
    if frames.len() == 0 {
        Seq::empty()
    } else {
        frames_bytes(width, height, delay_cs, frames.drop_last()) + frame_bytes(
            width,
            height,
            delay_cs,
            frames.last()@,
        )
    }
}

/// The whole GIF stream: header, frames, trailer `3B`.
pub open spec fn gif_bytes(
    width: int,
    height: int,
    frames: Seq<Vec<u8>>,
    palette: Seq<u8>,
    delay_cs: int,
    loop_count: int,
) -> Seq<u8> {
    gif_header(width, height, palette, loop_count) + frames_bytes(width, height, delay_cs, frames)
        + seq![0x3Bu8]
}

/// What an animation must satisfy to be encoded: a 768-byte palette, every frame of
/// `width * height` indices, and dimensions that fit the 16-bit screen fields.
pub open spec fn gif_encodable(width: int, height: int, frames: Seq<Vec<u8>>, palette_len: int) -> bool {
    &&& palette_len == 768
    &&& 0 <= width <= 0xFFFF
    &&& 0 <= height <= 0xFFFF
    &&& forall|i: int| 0 <= i < frames.len() ==> #[trigger] frames[i]@.len() == width * height
}

/// Appends `data` as sub-blocks of at most 255 bytes, each behind its length byte.
fn push_sub_blocks(out: &mut Vec<u8>, data: &[u8])
    ensures
        final(out)@ == old(out)@ + sub_blocks_from(data@, 0),
{
    let ghost start = out@;
    let mut pos: usize = 0;
    while pos < data.len()
        invariant
            pos <= data.len(),
            out@ + sub_blocks_from(data@, pos as int) == start + sub_blocks_from(data@, 0),
        decreases data.len() - pos,
    {
        let ghost before = out@;
        let remain = data.len() - pos;
        let chunk_len: usize = if remain > 255 {
            255
        } else {
            remain
        };
        out.push(chunk_len as u8);
        let mut k: usize = pos;
        while k < pos + chunk_len
            invariant
                pos <= k <= pos + chunk_len <= data.len(),
                out@ == before.push(chunk_len as u8) + data@.subrange(pos as int, k as int),
            decreases pos + chunk_len - k,
        {
            out.push(data[k]);
            k = k + 1;
            assert(out@ =~= before.push(chunk_len as u8) + data@.subrange(pos as int, k as int));
        }
        pos = pos + chunk_len;
        assert(out@ + sub_blocks_from(data@, pos as int) =~= before + sub_blocks_from(
            data@,
            (pos - chunk_len) as int,
        ));
    }
    assert(out@ =~= start + sub_blocks_from(data@, 0));
}

/// `true` exactly when `encode_gif` accepts these arguments.
pub fn gif_args_ok(
    width: i64,
    height: i64,
    frames: &[Vec<u8>],
    palette_len: usize,
) -> (r: bool)
    ensures
        r == gif_encodable(width as int, height as int, frames@, palette_len as int),
{
    if palette_len != 768 || width < 0 || width > 0xFFFF || height < 0 || height > 0xFFFF {
        return false;
    }
    assert(0 <= width * height <= 0xFFFF * 0xFFFF) by (nonlinear_arith)
        requires
            0 <= width <= 0xFFFF,
            0 <= height <= 0xFFFF,
    ;
    let pixels = (width * height) as usize;
    let mut i: usize = 0;
    while i < frames.len()
        invariant
            i <= frames.len(),
            pixels == width * height,
            forall|k: int| 0 <= k < i ==> #[trigger] frames@[k]@.len() == width * height,
        decreases frames.len() - i,
    {
        if frames[i].len() != pixels {
            return false;
        }
        i = i + 1;
    }
    true
}

/// Encodes palette-indexed frames as a looping GIF89a animation with a shared global
/// palette and one delay for every frame.
pub fn encode_gif(
    width: i64,
    height: i64,
    frames: &[Vec<u8>],
    palette: &[u8],
    delay_cs: i64,
    loop_count: i64,
) -> (r: Vec<u8>)
    requires
        gif_encodable(width as int, height as int, frames@, palette@.len() as int),
    ensures
        r@ == gif_bytes(
            width as int,
            height as int,
            frames@,
            palette@,
            delay_cs as int,
            loop_count as int,
        ),
{
    let w = width as u16;
    let h = height as u16;
    let mut out = Vec::<u8>::new();
    out.push(0x47);
    out.push(0x49);
    out.push(0x46);
    out.push(0x38);
    out.push(0x39);
    out.push(0x61);
    push_le16(&mut out, w);
    push_le16(&mut out, h);
    out.push(0xF7);
    out.push(0);
    out.push(0);
    push_all(&mut out, palette);
    out.push(0x21);
    out.push(0xFF);
    out.push(0x0B);
    push_all(&mut out, &[0x4E, 0x45, 0x54, 0x53, 0x43, 0x41, 0x50, 0x45, 0x32, 0x2E, 0x30]);
    out.push(0x03);
    out.push(0x01);
    push_le16(&mut out, low16_of(loop_count));
    out.push(0);
    let ghost header = out@;
    assert(header =~= gif_header(width as int, height as int, palette@, loop_count as int));
    let delay = low16_of(delay_cs);
    let mut i: usize = 0;
    while i < frames.len()
        invariant
            i <= frames.len(),
            delay == low16(delay_cs as int),
            w == width,
            h == height,
            out@ == header + frames_bytes(
                width as int,
                height as int,
                delay_cs as int,
                frames@.subrange(0, i as int),
            ),
        decreases frames.len() - i,
    {
        let ghost before = out@;
        let fr = &frames[i];
        out.push(0x21);
        out.push(0xF9);
        out.push(0x04);
        out.push(0x00);
        push_le16(&mut out, delay);
        out.push(0);
        out.push(0);
        out.push(0x2C);
        push_le16(&mut out, 0);
        push_le16(&mut out, 0);
        push_le16(&mut out, w);
        push_le16(&mut out, h);
        out.push(0);
        out.push(8);
        let compressed = gif_lzw_encode(fr.as_slice());
        proof {
            lemma_byte_stream_injective(compressed@, lzw_data(fr@));
        }
        push_sub_blocks(&mut out, compressed.as_slice());
        out.push(0);
        assert(out@ =~= before + frame_bytes(width as int, height as int, delay_cs as int, fr@));
        assert(frames@.subrange(0, i + 1).drop_last() =~= frames@.subrange(0, i as int));
        i = i + 1;
    }
    assert(frames@.subrange(0, frames.len() as int) =~= frames@);
    out.push(0x3B);
    out
}

/// The weight `2^j` of bit `j` when it is set.
pub open spec fn bit_weight(b: bool, j: int) -> int {
    if b {
        if j == 0 {
            1
        } else if j == 1 {
            2
        } else if j == 2 {
            4
        } else if j == 3 {
            8
        } else if j == 4 {
            16
        } else if j == 5 {
            32
        } else if j == 6 {
            64
        } else if j == 7 {
            128
        } else {
            256
        }
    } else {
        0
    }
}

/// Code `k` of a stream of 9-bit codes, least significant bit first.
pub open spec fn code_at(bits: Seq<bool>, k: int) -> int {
    bit_weight(bits[9 * k], 0) + bit_weight(bits[9 * k + 1], 1) + bit_weight(bits[9 * k + 2], 2)
        + bit_weight(bits[9 * k + 3], 3) + bit_weight(bits[9 * k + 4], 4) + bit_weight(
        bits[9 * k + 5],
        5,
    ) + bit_weight(bits[9 * k + 6], 6) + bit_weight(bits[9 * k + 7], 7) + bit_weight(
        bits[9 * k + 8],
        8,
    )
}

/// The first `count` 9-bit codes packed in `bytes`.
pub open spec fn read_codes(bytes: Seq<u8>, count: nat) -> Seq<int> {
    Seq::new(count, |k: int| code_at(byte_stream(bytes), k))
}

/// What a decoder makes of codes in which Clear follows every literal: the table is
/// reset before any entry could be used, so each code below 256 stands for that byte;
/// Clear adds nothing and End-of-Information stops.
pub open spec fn decode_codes(codes: Seq<int>) -> Seq<u8>
    decreases codes.len(),
{
    if codes.len() == 0 || codes[0] == LZW_END as int {
        Seq::empty()
    } else if codes[0] == LZW_CLEAR as int {
        decode_codes(codes.drop_first())
    } else {
        seq![codes[0] as u8] + decode_codes(codes.drop_first())
    }
}

proof fn lemma_code_stream_bits(codes: Seq<u16>, k: int, j: int)
    requires
        0 <= k < codes.len(),
        0 <= j < 9,
    ensures
        code_stream(codes).len() == 9 * codes.len(),
        code_stream(codes)[9 * k + j] == low_bits(codes[k] as u32, 9)[j],
    decreases codes.len(),
{
    lemma_code_stream_len(codes);
    if k < codes.len() - 1 {
        lemma_code_stream_bits(codes.drop_last(), k, j);
    }
}

proof fn lemma_code_stream_len(codes: Seq<u16>)
    ensures
        code_stream(codes).len() == 9 * codes.len(),
    decreases codes.len(),
{
    if codes.len() > 0 {
        lemma_code_stream_len(codes.drop_last());
    }
}

proof fn lemma_code_from_bits(c: u32)
    requires
        c < 512,
    ensures
        bit_weight((c >> 0u32) & 1 == 1, 0) + bit_weight((c >> 1u32) & 1 == 1, 1) + bit_weight(
            (c >> 2u32) & 1 == 1,
            2,
        ) + bit_weight((c >> 3u32) & 1 == 1, 3) + bit_weight((c >> 4u32) & 1 == 1, 4) + bit_weight(
            (c >> 5u32) & 1 == 1,
            5,
        ) + bit_weight((c >> 6u32) & 1 == 1, 6) + bit_weight((c >> 7u32) & 1 == 1, 7) + bit_weight(
            (c >> 8u32) & 1 == 1,
            8,
        ) == c,
{
    let b0 = (c >> 0u32) & 1;
    let b1 = (c >> 1u32) & 1;
    let b2 = (c >> 2u32) & 1;
    let b3 = (c >> 3u32) & 1;
    let b4 = (c >> 4u32) & 1;
    let b5 = (c >> 5u32) & 1;
    let b6 = (c >> 6u32) & 1;
    let b7 = (c >> 7u32) & 1;
    let b8 = (c >> 8u32) & 1;
    assert(c == b0 + 2 * b1 + 4 * b2 + 8 * b3 + 16 * b4 + 32 * b5 + 64 * b6 + 128 * b7 + 256 * b8
        && b0 <= 1 && b1 <= 1 && b2 <= 1 && b3 <= 1 && b4 <= 1 && b5 <= 1 && b6 <= 1 && b7 <= 1
        && b8 <= 1) by (bit_vector)
        requires
            c < 512,
            b0 == (c >> 0u32) & 1,
            b1 == (c >> 1u32) & 1,
            b2 == (c >> 2u32) & 1,
            b3 == (c >> 3u32) & 1,
            b4 == (c >> 4u32) & 1,
            b5 == (c >> 5u32) & 1,
            b6 == (c >> 6u32) & 1,
            b7 == (c >> 7u32) & 1,
            b8 == (c >> 8u32) & 1,
    ;
}

proof fn lemma_decode_concat(a: Seq<int>, b: Seq<int>)
    requires
        forall|i: int| 0 <= i < a.len() ==> #[trigger] a[i] != LZW_END as int,
    ensures
        decode_codes(a + b) == decode_codes(a) + decode_codes(b),
    decreases a.len(),
{
    if a.len() > 0 {
        assert((a + b).drop_first() =~= a.drop_first() + b);
        lemma_decode_concat(a.drop_first(), b);
    } else {
        assert(a + b =~= b);
    }
}

proof fn lemma_decode_literals(data: Seq<u8>)
    ensures
        decode_codes(literal_codes(data).map_values(|c: u16| c as int)) == data,
        forall|i: int|
            0 <= i < literal_codes(data).len() ==> #[trigger] literal_codes(data)[i] != LZW_END
                && literal_codes(data)[i] <= LZW_CLEAR,
        literal_codes(data).len() == 2 * data.len(),
    decreases data.len(),
{
    if data.len() > 0 {
        let d = data.drop_last();
        lemma_decode_literals(d);
        let prev = literal_codes(d).map_values(|c: u16| c as int);
        let tail = seq![data.last() as int, LZW_CLEAR as int];
        assert(literal_codes(data).map_values(|c: u16| c as int) =~= prev + tail);
        lemma_decode_concat(prev, tail);
        assert(tail.drop_first().drop_first() =~= Seq::<int>::empty());
        assert(tail.drop_first() =~= seq![LZW_CLEAR as int]);
        let one = seq![LZW_CLEAR as int];
        assert(one.drop_first() =~= Seq::<int>::empty());
        assert(decode_codes(Seq::<int>::empty()) == Seq::<u8>::empty());
        assert(one[0] == LZW_CLEAR as int);
        assert(decode_codes(one) == decode_codes(one.drop_first()));
        assert(decode_codes(one) =~= Seq::<u8>::empty());
        assert((data.last() as int) as u8 == data.last());
        assert(decode_codes(tail) =~= seq![data.last()]);
        assert(data =~= d + seq![data.last()]);
    } else {
        assert(literal_codes(data).map_values(|c: u16| c as int) =~= Seq::<int>::empty());
    }
}

/// A frame comes back from its LZW data: the 9-bit codes read from the packed bytes
/// are exactly the emitted codes (Clear, each byte then Clear, End-of-Information), and
/// a decoder that resets its table at every Clear turns them into the frame's bytes.
pub proof fn lemma_lzw_round_trip(data: Seq<u8>, out: Seq<u8>)
    requires
        is_lzw_output(data, out),
    ensures
        read_codes(out, lzw_codes(data).len()) == lzw_codes(data).map_values(|c: u16| c as int),
        decode_codes(read_codes(out, lzw_codes(data).len())) == data,
{
    let codes = lzw_codes(data);
    let bits = byte_stream(out);
    lemma_code_stream_len(codes);
    lemma_decode_literals(data);
    assert forall|k: int| 0 <= k < codes.len() implies #[trigger] code_at(bits, k) == codes[k] as int by {
        lemma_code_stream_bits(codes, k, 0);
        lemma_code_stream_bits(codes, k, 1);
        lemma_code_stream_bits(codes, k, 2);
        lemma_code_stream_bits(codes, k, 3);
        lemma_code_stream_bits(codes, k, 4);
        lemma_code_stream_bits(codes, k, 5);
        lemma_code_stream_bits(codes, k, 6);
        lemma_code_stream_bits(codes, k, 7);
        lemma_code_stream_bits(codes, k, 8);
        assert(bits.subrange(0, code_stream(codes).len() as int) =~= code_stream(codes));
        assert(codes[k] < 512);
        lemma_code_from_bits(codes[k] as u32);
    }
    assert(read_codes(out, codes.len()) =~= codes.map_values(|c: u16| c as int));
    let lits = literal_codes(data).map_values(|c: u16| c as int);
    assert(codes.map_values(|c: u16| c as int) =~= seq![LZW_CLEAR as int] + (lits + seq![LZW_END as int]));
    lemma_decode_concat(lits, seq![LZW_END as int]);
    assert((seq![LZW_CLEAR as int] + (lits + seq![LZW_END as int])).drop_first() =~= lits + seq![LZW_END as int]);
    assert(decode_codes(seq![LZW_END as int]) =~= Seq::<u8>::empty());
}

/// What a reader of GIF image data gets from `bytes`: the contents of the sub-blocks up
/// to the zero-length terminator.
pub open spec fn read_sub_blocks(bytes: Seq<u8>) -> Seq<u8>
    decreases bytes.len(),
{
    if bytes.len() == 0 || bytes[0] == 0 {
        Seq::empty()
    } else {
        let n = bytes[0] as int;
        if 1 + n <= bytes.len() {
            bytes.subrange(1, 1 + n) + read_sub_blocks(bytes.subrange(1 + n, bytes.len() as int))
        } else {
            bytes.subrange(1, bytes.len() as int)
        }
    }
}

proof fn lemma_read_sub_blocks_from(data: Seq<u8>, pos: int)
    requires
        0 <= pos <= data.len(),
    ensures
        read_sub_blocks(sub_blocks_from(data, pos) + seq![0u8]) == data.subrange(pos, data.len() as int),
    decreases data.len() - pos,
{
    let b = sub_blocks_from(data, pos) + seq![0u8];
    if pos == data.len() {
        assert(b =~= seq![0u8]);
        assert(data.subrange(pos, data.len() as int) =~= Seq::<u8>::empty());
    } else {
        let n = if data.len() - pos > 255 {
            255
        } else {
            data.len() - pos
        };
        lemma_read_sub_blocks_from(data, pos + n);
        let rest = sub_blocks_from(data, pos + n) + seq![0u8];
        assert(b[0] as int == n);
        assert(b.subrange(1, 1 + n) =~= data.subrange(pos, pos + n));
        assert(b.subrange(1 + n, b.len() as int) =~= rest);
        assert(read_sub_blocks(b) =~= data.subrange(pos, data.len() as int));
    }
}

/// A frame comes back from a file: reading the sub-blocks of its image data up to the
/// terminator gives back the LZW bytes, whose 9-bit codes decode to the frame.
pub proof fn lemma_frame_recoverable(frame: Seq<u8>, lzw: Seq<u8>)
    requires
        is_lzw_output(frame, lzw),
    ensures
        read_sub_blocks(sub_blocks_from(lzw, 0) + seq![0u8]) == lzw,
        decode_codes(read_codes(lzw, lzw_codes(frame).len())) == frame,
{
    lemma_read_sub_blocks_from(lzw, 0);
    assert(lzw.subrange(0, lzw.len() as int) =~= lzw);
    lemma_lzw_round_trip(frame, lzw);
}

} // verus!
