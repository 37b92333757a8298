use vstd::prelude::*;

use crate::checksum::{adler32, crc32, png_adler32, png_crc32};

verus! {

/// Largest payload of one DEFLATE stored block.
pub const STORED_BLOCK_MAX: usize = 65535;

/// Big-endian bytes of a 32-bit value.
pub open spec fn be32(x: int) -> Seq<u8> {
    seq![
        ((x / 0x100_0000) % 0x100) as u8,
        ((x / 0x1_0000) % 0x100) as u8,
        ((x / 0x100) % 0x100) as u8,
        (x % 0x100) as u8,
    ]
}

/// Little-endian bytes of a 16-bit value.
pub open spec fn le16(x: int) -> Seq<u8> {
    seq![(x % 0x100) as u8, ((x / 0x100) % 0x100) as u8]
}

/// A PNG chunk: payload length, tag, payload, and CRC-32 of tag and payload.
pub open spec fn chunk_bytes(kind: Seq<u8>, data: Seq<u8>) -> Seq<u8> {
    be32(data.len() as int) + kind + data + be32(crc32(kind + data) as int)
}

/// Payload length of the stored block that starts at `pos`.
pub open spec fn stored_block_len(n: int, pos: int) -> int {
    if n - pos > STORED_BLOCK_MAX {
        STORED_BLOCK_MAX as int
    } else {
        n - pos
    }
}

/// The stored blocks that carry `raw` from `pos` on: each one a header byte (BFINAL on
/// the last, BTYPE 00), LEN and its complement little-endian, then LEN raw bytes.
pub open spec fn stored_blocks_from(raw: Seq<u8>, pos: int) -> Seq<u8>
    decreases raw.len() - pos,
{
    if pos < 0 || pos >= raw.len() {
        Seq::empty()
    } else {
        let len = stored_block_len(raw.len() as int, pos);
        let last: u8 = if pos + len >= raw.len() {
            1
        } else {
            0
        };
        seq![last] + le16(len) + le16(0xFFFF - len) + raw.subrange(pos, pos + len)
            + stored_blocks_from(raw, pos + len)
    }
}

/// A zlib stream that stores `raw` uncompressed: header `78 01`, the stored blocks, and
/// the Adler-32 of `raw` big-endian.
pub open spec fn zlib_stored(raw: Seq<u8>) -> Seq<u8> {
    seq![0x78u8, 0x01u8] + stored_blocks_from(raw, 0) + be32(adler32(raw))
}

/// Length of the stored blocks that carry `n` bytes.
pub open spec fn stored_blocks_len(n: int) -> int {
    n + 5 * ((n + 65534) / 65535)
}

/// Appends the big-endian bytes of `x`.
fn push_be32(out: &mut Vec<u8>, x: u32)
    ensures
        final(out)@ == old(out)@ + be32(x as int),
{
    out.push((x / 0x100_0000) as u8);
    out.push(((x / 0x1_0000) % 0x100) as u8);
    out.push(((x / 0x100) % 0x100) as u8);
    out.push((x % 0x100) as u8);
}

/// Appends the little-endian bytes of `x`.
pub(crate) fn push_le16(out: &mut Vec<u8>, x: u16)
    ensures
        final(out)@ == old(out)@ + le16(x as int),
{
    out.push((x % 0x100) as u8);
    out.push((x / 0x100) as u8);
}

/// Appends `data`.
pub(crate) fn push_all(out: &mut Vec<u8>, data: &[u8])
    ensures
        final(out)@ == old(out)@ + data@,
{
    let ghost start = out@;
    let mut i: usize = 0;
    while i < data.len()
        invariant
            i <= data.len(),
            out@ == start + data@.subrange(0, i as int),
        decreases data.len() - i,
    {
        out.push(data[i]);
        i = i + 1;
        assert(out@ =~= start + data@.subrange(0, i as int));
    }
    assert(data@.subrange(0, data.len() as int) =~= data@);
}

/// Appends `data[from..to]`.
fn push_range(out: &mut Vec<u8>, data: &[u8], from: usize, to: usize)
    requires
        from <= to <= data.len(),
    ensures
        final(out)@ == old(out)@ + data@.subrange(from as int, to as int),
{
    let ghost start = out@;
    let mut i: usize = from;
    while i < to
        invariant
            from <= i <= to,
            to <= data.len(),
            out@ == start + data@.subrange(from as int, i as int),
        decreases to - i,
    {
        out.push(data[i]);
        i = i + 1;
        assert(out@ =~= start + data@.subrange(from as int, i as int));
    }
}

/// A PNG chunk with tag `kind` and payload `data`.
pub fn png_chunk(kind: &[u8; 4], data: &[u8]) -> (r: Vec<u8>)
    requires
        data.len() <= u32::MAX,
    ensures
        r@ == chunk_bytes(kind@, data@),
{
    let mut out = Vec::<u8>::new();
    push_be32(&mut out, data.len() as u32);
    push_all(&mut out, kind);
    push_all(&mut out, data);
    let mut crc_input = Vec::<u8>::new();
    push_all(&mut crc_input, kind);
    push_all(&mut crc_input, data);
    let crc = png_crc32(crc_input.as_slice());
    push_be32(&mut out, crc);
    assert(out@ =~= chunk_bytes(kind@, data@));
    out
}

/// Wraps `raw` in a zlib stream of stored (uncompressed) DEFLATE blocks.
pub fn zlib_store_compress(raw: &[u8]) -> (r: Vec<u8>)
    ensures
        r@ == zlib_stored(raw@),
{
    let mut out = Vec::<u8>::new();
    out.push(0x78);
    out.push(0x01);
    let mut pos: usize = 0;
    while pos < raw.len()
        invariant
            pos <= raw.len(),
            out@ + stored_blocks_from(raw@, pos as int) == seq![0x78u8, 0x01u8]
                + stored_blocks_from(raw@, 0),
        decreases raw.len() - pos,
    {
        let ghost before = out@;
        let remain = raw.len() - pos;
        let block_len: usize = if remain > STORED_BLOCK_MAX {
            STORED_BLOCK_MAX
        } else {
            remain
        };
        let final_block = pos + block_len >= raw.len();
        out.push(if final_block {
            1
        } else {
            0
        });
        let len = block_len as u16;
        push_le16(&mut out, len);
        push_le16(&mut out, 0xFFFF - len);
        push_range(&mut out, raw, pos, pos + block_len);
        pos = pos + block_len;
        assert(out@ + stored_blocks_from(raw@, pos as int) =~= before + stored_blocks_from(
            raw@,
            (pos - block_len) as int,
        ));
    }
    assert(out@ =~= seq![0x78u8, 0x01u8] + stored_blocks_from(raw@, 0));
    push_be32(&mut out, png_adler32(raw));
    out
}

/// The PNG file signature.
pub open spec fn png_signature() -> Seq<u8> {
    seq![0x89u8, 0x50u8, 0x4Eu8, 0x47u8, 0x0Du8, 0x0Au8, 0x1Au8, 0x0Au8]
}

/// The tag `IHDR`.
pub open spec fn tag_ihdr() -> Seq<u8> {
    seq![0x49u8, 0x48u8, 0x44u8, 0x52u8]
}

/// The tag `IDAT`.
pub open spec fn tag_idat() -> Seq<u8> {
    seq![0x49u8, 0x44u8, 0x41u8, 0x54u8]
}

/// The tag `IEND`.
pub open spec fn tag_iend() -> Seq<u8> {
    seq![0x49u8, 0x45u8, 0x4Eu8, 0x44u8]
}

/// The IHDR payload of an 8-bit RGB image without interlacing.
pub open spec fn ihdr_payload(width: int, height: int) -> Seq<u8> {
    be32(width) + be32(height) + seq![8u8, 2u8, 0u8, 0u8, 0u8]
}

/// The first `rows` scanlines of an image whose rows hold `row_bytes` pixel bytes: each
/// row is the filter byte 0 followed by that row's pixel bytes.
pub open spec fn scanlines(pixels: Seq<u8>, row_bytes: int, rows: nat) -> Seq<u8>
    decreases rows,
{
    if rows == 0 {
        Seq::empty()
    } else {
        let y = rows - 1;
        scanlines(pixels, row_bytes, (rows - 1) as nat) + seq![0u8] + pixels.subrange(
            y * row_bytes,
            y * row_bytes + row_bytes,
        )
    }
}

/// The whole PNG stream of an RGB image: signature, IHDR, one IDAT holding the
/// scanlines as a stored zlib stream, and an empty IEND.
pub open spec fn png_bytes(width: int, height: int, pixels: Seq<u8>) -> Seq<u8> {
    png_signature() + chunk_bytes(tag_ihdr(), ihdr_payload(width, height)) + chunk_bytes(
        tag_idat(),
        zlib_stored(scanlines(pixels, 3 * width, height as nat)),
    ) + chunk_bytes(tag_iend(), Seq::empty())
}

/// What an RGB image must satisfy to be encoded: positive dimensions that fit the
/// 32-bit header fields, exactly `width * height * 3` pixel bytes, and an IDAT payload
/// whose length fits the 32-bit chunk length.
pub open spec fn png_encodable(width: int, height: int, pixels_len: int) -> bool {
    &&& 0 < width <= u32::MAX
    &&& 0 < height <= u32::MAX
    &&& pixels_len == width * height * 3
    &&& stored_blocks_len(height * (3 * width + 1)) + 6 <= u32::MAX
}

proof fn lemma_stored_blocks_len(raw: Seq<u8>, pos: int)
    requires
        0 <= pos <= raw.len(),
    ensures
        stored_blocks_from(raw, pos).len() == stored_blocks_len(raw.len() - pos),
    decreases raw.len() - pos,
{
    if pos < raw.len() {
        let len = stored_block_len(raw.len() as int, pos);
        lemma_stored_blocks_len(raw, pos + len);
    }
}

proof fn lemma_scanlines_len(pixels: Seq<u8>, row_bytes: int, rows: nat)
    requires
        row_bytes >= 0,
        pixels.len() >= rows * row_bytes,
    ensures
        scanlines(pixels, row_bytes, rows).len() == rows * (row_bytes + 1),
    decreases rows,
{
    if rows > 0 {
        let y = rows - 1;
        lemma_row_step(y, row_bytes);
        assert(rows * row_bytes == y * row_bytes + row_bytes);
        assert(rows * (row_bytes + 1) == y * (row_bytes + 1) + row_bytes + 1);
        lemma_scanlines_len(pixels, row_bytes, (rows - 1) as nat);
        assert(pixels.subrange(y * row_bytes, y * row_bytes + row_bytes).len() == row_bytes);
    } else {
        assert(rows * (row_bytes + 1) == 0) by (nonlinear_arith)
            requires
                rows == 0,
        ;
    }
}

proof fn lemma_row_step(y: int, row_bytes: int)
    requires
        y >= 0,
        row_bytes >= 0,
    ensures
        (y + 1) * row_bytes == y * row_bytes + row_bytes,
        (y + 1) * (row_bytes + 1) == y * (row_bytes + 1) + row_bytes + 1,
        y * row_bytes <= (y + 1) * row_bytes,
        y * row_bytes >= 0,
{
    assert(y * row_bytes >= 0) by (nonlinear_arith)
        requires
            y >= 0,
            row_bytes >= 0,
    ;
    assert((y + 1) * row_bytes == y * row_bytes + row_bytes) by (nonlinear_arith);
    assert((y + 1) * (row_bytes + 1) == y * (row_bytes + 1) + row_bytes + 1) by (nonlinear_arith);
}

proof fn lemma_rows_within(y: int, h: int, row_bytes: int)
    requires
        0 <= y < h,
        row_bytes >= 0,
    ensures
        (y + 1) * row_bytes <= h * row_bytes,
{
    assert((y + 1) * row_bytes <= h * row_bytes) by (nonlinear_arith)
        requires
            y + 1 <= h,
            row_bytes >= 0,
    ;
}

/// `true` exactly when `encode_rgb_png` accepts these dimensions and pixel count.
pub fn png_size_ok(width: i64, height: i64, pixels_len: usize) -> (r: bool)
    ensures
        r == png_encodable(width as int, height as int, pixels_len as int),
{
    if width <= 0 || height <= 0 || width > 0xFFFF_FFFF || height > 0xFFFF_FFFF {
        return false;
    }
    let w = width as u128;
    let h = height as u128;
    assert(w * h * 3 <= 0xFFFF_FFFF * 0xFFFF_FFFF * 3) by (nonlinear_arith)
        requires
            w <= 0xFFFF_FFFF,
            h <= 0xFFFF_FFFF,
    ;
    if w * h * 3 != pixels_len as u128 {
        return false;
    }
    assert(h * (3 * w + 1) <= 0xFFFF_FFFF * (3 * 0xFFFF_FFFF + 1)) by (nonlinear_arith)
        requires
            w <= 0xFFFF_FFFF,
            h <= 0xFFFF_FFFF,
    ;
    let n = h * (3 * w + 1);
    n + 5 * ((n + 65534) / 65535) + 6 <= 0xFFFF_FFFF
}

/// Encodes an RGB image, rows top-down, as a PNG byte stream.
pub fn encode_rgb_png(width: i64, height: i64, pixels: &[u8]) -> (r: Vec<u8>)
    requires
        png_encodable(width as int, height as int, pixels@.len() as int),
    ensures
        r@ == png_bytes(width as int, height as int, pixels@),
{
    let w = width as usize;
    let h = height as usize;
    assert(h * (3 * w) == w * h * 3) by (nonlinear_arith);
    assert(w * 3 <= w * h * 3) by (nonlinear_arith)
        requires
            h >= 1,
            w >= 1,
    ;
    assert(w * 3 <= pixels.len());
    let row_bytes = w * 3;
    let scan = build_scanlines(pixels, row_bytes, h);
    let mut ihdr = Vec::<u8>::new();
    push_be32(&mut ihdr, width as u32);
    push_be32(&mut ihdr, height as u32);
    ihdr.push(8);
    ihdr.push(2);
    ihdr.push(0);
    ihdr.push(0);
    ihdr.push(0);
    assert(ihdr@ =~= ihdr_payload(width as int, height as int));
    proof {
        lemma_scanlines_len(pixels@, row_bytes as int, h as nat);
        lemma_stored_blocks_len(scan@, 0);
    }
    let idat = zlib_store_compress(scan.as_slice());
    let mut png = Vec::<u8>::new();
    png.push(0x89);
    png.push(0x50);
    png.push(0x4E);
    png.push(0x47);
    png.push(0x0D);
    png.push(0x0A);
    png.push(0x1A);
    png.push(0x0A);
    let ihdr_chunk = png_chunk(&[0x49, 0x48, 0x44, 0x52], ihdr.as_slice());
    push_all(&mut png, ihdr_chunk.as_slice());
    let idat_chunk = png_chunk(&[0x49, 0x44, 0x41, 0x54], idat.as_slice());
    push_all(&mut png, idat_chunk.as_slice());
    let empty: Vec<u8> = Vec::new();
    let iend_chunk = png_chunk(&[0x49, 0x45, 0x4E, 0x44], empty.as_slice());
    push_all(&mut png, iend_chunk.as_slice());
    assert(png@ =~= png_bytes(width as int, height as int, pixels@));
    png
}

/// The scanlines of `h` rows of `row_bytes` pixel bytes each, every row behind filter
/// byte 0.
fn build_scanlines(pixels: &[u8], row_bytes: usize, h: usize) -> (r: Vec<u8>)
    requires
        pixels@.len() == h * row_bytes,
    ensures
        r@ == scanlines(pixels@, row_bytes as int, h as nat),
{
    let mut scan = Vec::<u8>::new();
    let mut y: usize = 0;
    let mut start: usize = 0;
    while y < h
        invariant
            y <= h,
            pixels@.len() == h * row_bytes,
            start == y * row_bytes,
            scan@ == scanlines(pixels@, row_bytes as int, y as nat),
        decreases h - y,
    {
        proof {
            lemma_row_step(y as int, row_bytes as int);
            lemma_rows_within(y as int, h as int, row_bytes as int);
        }
        assert(start + row_bytes <= pixels.len());
        scan.push(0);
        push_range(&mut scan, pixels, start, start + row_bytes);
        start = start + row_bytes;
        y = y + 1;
    }
    scan
}

/// What a reader of stored DEFLATE blocks gets from `bytes`: each block's LEN payload
/// bytes, up to and including the block marked final.
pub open spec fn read_stored(bytes: Seq<u8>) -> Seq<u8>
    decreases bytes.len(),
{
    if bytes.len() < 5 {
        Seq::empty()
    } else {
        let n = bytes[1] as int + 256 * bytes[2] as int;
        let payload = bytes.subrange(5, if 5 + n <= bytes.len() {
            5 + n
        } else {
            bytes.len() as int
        });
        if bytes[0] % 2 == 1 || 5 + n >= bytes.len() {
            payload
        } else {
            payload + read_stored(bytes.subrange(5 + n, bytes.len() as int))
        }
    }
}

/// The pixel bytes of `rows` scanlines of `row_bytes` pixel bytes each, the filter byte
/// in front of every row dropped.
pub open spec fn unfilter(scan: Seq<u8>, row_bytes: int, rows: nat) -> Seq<u8>
    decreases rows,
{
    if rows == 0 {
        Seq::empty()
    } else {
        let start = (rows - 1) * (row_bytes + 1);
        unfilter(scan, row_bytes, (rows - 1) as nat) + scan.subrange(start + 1, start + 1 + row_bytes)
    }
}

proof fn lemma_read_stored_from(raw: Seq<u8>, pos: int)
    requires
        0 <= pos <= raw.len(),
    ensures
        read_stored(stored_blocks_from(raw, pos)) == raw.subrange(pos, raw.len() as int),
    decreases raw.len() - pos,
{
    let blocks = stored_blocks_from(raw, pos);
    if pos == raw.len() {
        assert(raw.subrange(pos, raw.len() as int) =~= Seq::<u8>::empty());
    } else {
        let len = stored_block_len(raw.len() as int, pos);
        let rest = stored_blocks_from(raw, pos + len);
        lemma_read_stored_from(raw, pos + len);
        assert(blocks[1] as int + 256 * blocks[2] as int == len);
        assert(blocks.subrange(5, 5 + len) =~= raw.subrange(pos, pos + len));
        if pos + len >= raw.len() {
            assert(rest =~= Seq::<u8>::empty());
            assert(blocks.len() == 5 + len);
        } else {
            assert(blocks.subrange(5 + len, blocks.len() as int) =~= rest);
            lemma_stored_blocks_len(raw, pos + len);
            assert(rest.len() > 0);
        }
        assert(read_stored(blocks) =~= raw.subrange(pos, raw.len() as int));
    }
}

proof fn lemma_unfilter_scanlines(pixels: Seq<u8>, row_bytes: int, rows: nat)
    requires
        row_bytes >= 0,
        pixels.len() >= rows * row_bytes,
    ensures
        unfilter(scanlines(pixels, row_bytes, rows), row_bytes, rows) == pixels.subrange(0, rows * row_bytes),
    decreases rows,
{
    if rows > 0 {
        let y = rows - 1;
        lemma_row_step(y, row_bytes);
        lemma_scanlines_len(pixels, row_bytes, rows);
        lemma_scanlines_len(pixels, row_bytes, (rows - 1) as nat);
        let prev = scanlines(pixels, row_bytes, (rows - 1) as nat);
        let full = scanlines(pixels, row_bytes, rows);
        assert(full.subrange(0, prev.len() as int) =~= prev);
        lemma_unfilter_prefix(full, prev, row_bytes, (rows - 1) as nat);
        lemma_unfilter_scanlines(pixels, row_bytes, (rows - 1) as nat);
        let start = y * (row_bytes + 1);
        assert(full.subrange(start + 1, start + 1 + row_bytes) =~= pixels.subrange(
            y * row_bytes,
            y * row_bytes + row_bytes,
        ));
        assert(rows * row_bytes == y * row_bytes + row_bytes);
        assert(unfilter(full, row_bytes, rows) =~= pixels.subrange(0, rows * row_bytes));
    } else {
        assert(rows * row_bytes == 0) by (nonlinear_arith)
            requires
                rows == 0,
        ;
    }
}

proof fn lemma_unfilter_prefix(full: Seq<u8>, prefix: Seq<u8>, row_bytes: int, rows: nat)
    requires
        row_bytes >= 0,
        prefix.len() == rows * (row_bytes + 1),
        prefix.len() <= full.len(),
        full.subrange(0, prefix.len() as int) == prefix,
    ensures
        unfilter(full, row_bytes, rows) == unfilter(prefix, row_bytes, rows),
    decreases rows,
{
    if rows > 0 {
        let y = rows - 1;
        lemma_row_step(y, row_bytes);
        let start = y * (row_bytes + 1);
        assert(start + 1 + row_bytes == prefix.len());
        assert(full.subrange(start + 1, start + 1 + row_bytes) =~= prefix.subrange(start + 1, start + 1 + row_bytes));
        assert(full.subrange(0, start) =~= prefix.subrange(0, start));
        lemma_unfilter_prefix(full, prefix.subrange(0, start), row_bytes, (rows - 1) as nat);
        lemma_unfilter_prefix(prefix, prefix.subrange(0, start), row_bytes, (rows - 1) as nat);
    }
}

/// The pixels survive encoding: reading the stored blocks of the IDAT payload's zlib
/// body gives back the scanlines, and dropping each row's filter byte (filter type 0,
/// no prediction) gives back exactly the pixel bytes.
pub proof fn lemma_png_pixels_recoverable(width: int, height: int, pixels: Seq<u8>)
    requires
        png_encodable(width, height, pixels.len() as int),
    ensures
        ({
            let scan = scanlines(pixels, 3 * width, height as nat);
            &&& read_stored(stored_blocks_from(scan, 0)) == scan
            &&& unfilter(scan, 3 * width, height as nat) == pixels
        }),
{
    let scan = scanlines(pixels, 3 * width, height as nat);
    assert(pixels.len() == height * (3 * width)) by (nonlinear_arith)
        requires
            pixels.len() == width * height * 3,
    ;
    lemma_scanlines_len(pixels, 3 * width, height as nat);
    lemma_read_stored_from(scan, 0);
    assert(scan.subrange(0, scan.len() as int) =~= scan);
    lemma_unfilter_scanlines(pixels, 3 * width, height as nat);
    assert(pixels.subrange(0, height * (3 * width)) =~= pixels);
}

} // verus!
