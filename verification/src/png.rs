//! Deterministic PNG encoding of pixel buffers.
//!
//! The image data is stored uncompressed in DEFLATE "stored" blocks inside a
//! zlib stream, so encoding needs no compressor.

use vstd::prelude::*;

use crate::pixel_buffer::{Pixel, PixelBuffer};

verus! {

/// Why a [`PixelBuffer`] could not be encoded as a PNG image.
#[derive(Clone, Copy, Debug, PartialEq, Eq, Structural)]
pub enum PngError {
    /// PNG images must have a non-zero width and height.
    InvalidDimensions,
    /// The scanline data does not fit in addressable memory.
    DataTooLarge,
}

impl PngError {
    /// Returns a human-readable description of the error.
    pub fn describe(&self) -> (r: &'static str)
        ensures
            r@ == (match *self {
                PngError::InvalidDimensions => "PNG images must have a non-zero width and height"@,
                PngError::DataTooLarge => "PNG scanline data does not fit in memory"@,
            }),
    {
        match self {
            PngError::InvalidDimensions => "PNG images must have a non-zero width and height",
            PngError::DataTooLarge => "PNG scanline data does not fit in memory",
        }
    }
}

/// The big-endian bytes of `x`.
pub open spec fn be32(x: u32) -> Seq<u8> {
    seq![
        (x / 0x100_0000) as u8,
        ((x / 0x1_0000) % 0x100) as u8,
        ((x / 0x100) % 0x100) as u8,
        (x % 0x100) as u8,
    ]
}

/// The little-endian bytes of a 16-bit value.
pub open spec fn le16(x: nat) -> Seq<u8> {
    seq![(x % 0x100) as u8, ((x / 0x100) % 0x100) as u8]
}

/// One step of the reflected CRC-32 register (polynomial `0xEDB88320`).
pub open spec fn crc_shift(c: u32) -> u32 {
    if c & 1 == 1 {
        (c >> 1u32) ^ 0xEDB8_8320u32
    } else {
        c >> 1u32
    }
}

/// `n` steps of the CRC-32 register.
pub open spec fn crc_shifts(c: u32, n: nat) -> u32
    decreases n,
{
    if n == 0 {
        c
    } else {
        crc_shifts(crc_shift(c), (n - 1) as nat)
    }
}

/// The CRC-32 register after feeding `data`, starting from all ones.
pub open spec fn crc_register(data: Seq<u8>) -> u32
    decreases data.len(),
{
    if data.len() == 0 {
        0xFFFF_FFFF
    } else {
        crc_shifts(crc_register(data.drop_last()) ^ (data.last() as u32), 8)
    }
}

/// The CRC-32 (ISO-HDLC, as used by PNG and zlib) of `data`.
pub open spec fn crc32_of(data: Seq<u8>) -> u32 {
    !crc_register(data)
}

/// The Adler-32 running sums `(a, b)` after feeding `data`.
pub open spec fn adler_sums(data: Seq<u8>) -> (nat, nat)
    decreases data.len(),
{
    if data.len() == 0 {
        (1, 0)
    } else {
        let (a, b) = adler_sums(data.drop_last());
        let next = ((a + data.last()) % 65521) as nat;
        (next, ((b + next) % 65521) as nat)
    }
}

/// The Adler-32 checksum of `data`.
pub open spec fn adler32_of(data: Seq<u8>) -> u32 {
    (adler_sums(data).1 * 65536 + adler_sums(data).0) as u32
}

/// One DEFLATE stored block holding `chunk`.
pub open spec fn stored_block(last: bool, chunk: Seq<u8>) -> Seq<u8> {
    seq![if last { 1u8 } else { 0u8 }] + le16(chunk.len()) + le16((65535 - chunk.len()) as nat)
        + chunk
}

/// `data` split into DEFLATE stored blocks of at most 65535 bytes, the last
/// one marked final.
pub open spec fn stored_blocks(data: Seq<u8>) -> Seq<u8>
    decreases data.len(),
{
    if data.len() == 0 {
        Seq::empty()
    } else if data.len() <= 65535 {
        stored_block(true, data)
    } else {
        stored_block(false, data.take(65535)) + stored_blocks(data.skip(65535))
    }
}

/// The zlib stream that stores `data` without compression.
pub open spec fn zlib_stored(data: Seq<u8>) -> Seq<u8> {
    seq![0x78u8, 0x01u8] + stored_blocks(data) + be32(adler32_of(data))
}

/// A PNG chunk of the given kind holding `data`.
pub open spec fn png_chunk(kind: Seq<u8>, data: Seq<u8>) -> Seq<u8> {
    be32(data.len() as u32) + kind + data + be32(crc32_of(kind + data))
}

/// The bytes of one pixel in RGBA order.
pub open spec fn pixel_bytes(p: Pixel) -> Seq<u8> {
    seq![p.red, p.green, p.blue, p.alpha]
}

/// The RGBA bytes of a sequence of pixels.
pub open spec fn pixels_bytes(pixels: Seq<Pixel>) -> Seq<u8>
    decreases pixels.len(),
{
    if pixels.len() == 0 {
        Seq::empty()
    } else {
        pixels_bytes(pixels.drop_last()) + pixel_bytes(pixels.last())
    }
}

/// The first `rows` filtered scanlines of an image of the given width: each
/// row is a filter byte of zero followed by the row's RGBA bytes.
pub open spec fn scanline_rows(pixels: Seq<Pixel>, width: nat, rows: nat) -> Seq<u8>
    decreases rows,
{
    if rows == 0 {
        Seq::empty()
    } else {
        scanline_rows(pixels, width, (rows - 1) as nat) + seq![0u8] + pixels_bytes(
            pixels.subrange((rows - 1) * width, (rows * width) as int),
        )
    }
}

/// The chunk type names.
pub open spec fn ihdr() -> Seq<u8> {
    seq![73u8, 72u8, 68u8, 82u8]
}

/// The IDAT chunk type name.
pub open spec fn idat() -> Seq<u8> {
    seq![73u8, 68u8, 65u8, 84u8]
}

/// The IEND chunk type name.
pub open spec fn iend() -> Seq<u8> {
    seq![73u8, 69u8, 78u8, 68u8]
}

/// The PNG signature.
pub open spec fn png_signature() -> Seq<u8> {
    seq![137u8, 80u8, 78u8, 71u8, 13u8, 10u8, 26u8, 10u8]
}

/// The IHDR payload: dimensions, 8-bit depth, RGBA color, default methods.
pub open spec fn png_header(width: u32, height: u32) -> Seq<u8> {
    be32(width) + be32(height) + seq![8u8, 6u8, 0u8, 0u8, 0u8]
}

/// IDAT chunks holding `data` in pieces of at most `u32::MAX` bytes.
pub open spec fn idat_chunks(data: Seq<u8>) -> Seq<u8>
    decreases data.len(),
{
    if data.len() == 0 {
        Seq::empty()
    } else if data.len() <= u32::MAX {
        png_chunk(idat(), data)
    } else {
        png_chunk(idat(), data.take(u32::MAX as int)) + idat_chunks(data.skip(u32::MAX as int))
    }
}

/// Whether the scanlines of an image of this width and height fit in memory.
pub open spec fn scanlines_fit(width: nat, height: nat) -> bool {
    4 * width <= usize::MAX && (4 * width + 1) * height <= usize::MAX
}

/// The complete PNG file of an image.
pub open spec fn png_file(width: u32, height: u32, pixels: Seq<Pixel>) -> Seq<u8> {
    let data = zlib_stored(scanline_rows(pixels, width as nat, height as nat));
    png_signature() + png_chunk(ihdr(), png_header(width, height)) + idat_chunks(data) + png_chunk(
        iend(),
        Seq::empty(),
    )
}

fn push_be32(out: &mut Vec<u8>, x: u32)
    ensures
        final(out)@ == old(out)@ + be32(x),
{
    out.push((x / 0x100_0000) as u8);
    out.push(((x / 0x1_0000) % 0x100) as u8);
    out.push(((x / 0x100) % 0x100) as u8);
    out.push((x % 0x100) as u8);
    assert(final(out)@ =~= old(out)@ + be32(x));
}

fn push_le16(out: &mut Vec<u8>, x: usize)
    requires
        x <= 65535,
    ensures
        final(out)@ == old(out)@ + le16(x as nat),
{
    out.push((x % 0x100) as u8);
    out.push(((x / 0x100) % 0x100) as u8);
    assert(final(out)@ =~= old(out)@ + le16(x as nat));
}

fn push_all(out: &mut Vec<u8>, data: &[u8], start: usize, end: usize)
    requires
        start <= end <= data@.len(),
    ensures
        final(out)@ == old(out)@ + data@.subrange(start as int, end as int),
{
    let mut i = start;
    while i < end
        invariant
            start <= i <= end,
            end <= data@.len(),
            out@ == old(out)@ + data@.subrange(start as int, i as int),
        decreases end - i,
    {
        out.push(data[i]);
        assert(data@.subrange(start as int, i + 1) =~= data@.subrange(start as int, i as int).push(
            data@[i as int],
        ));
        i = i + 1;
    }
}

/// Computes the CRC-32 checksum of `data`.
pub fn crc32(data: &[u8]) -> (r: u32)
    ensures
        r == crc32_of(data@),
{
    let mut crc: u32 = 0xFFFF_FFFF;
    let mut i: usize = 0;
    while i < data.len()
        invariant
            i <= data@.len(),
            crc == crc_register(data@.subrange(0, i as int)),
        decreases data.len() - i,
    {
        let byte = data[i];
        crc = crc ^ (byte as u32);
        let ghost start = crc;
        let mut bit: u32 = 0;
        while bit < 8
            invariant
                bit <= 8,
                crc_shifts(start, 8) == crc_shifts(crc, (8 - bit) as nat),
            decreases 8 - bit,
        {
            let low = crc & 1;
            assert(low == 0 || low == 1) by (bit_vector)
                requires
                    low == crc & 1,
            ;
            let mask = 0u32.wrapping_sub(low);
            assert(low == 0 ==> mask == 0);
            assert(low == 1 ==> mask == 0xFFFF_FFFF);
            let next = (crc >> 1) ^ (0xedb8_8320 & mask);
            assert(next == crc_shift(crc)) by (bit_vector)
                requires
                    next == (crc >> 1) ^ (0xedb8_8320 & mask),
                    low == crc & 1,
                    low == 0 ==> mask == 0,
                    low == 1 ==> mask == 0xFFFF_FFFF,
            ;
            crc = next;
            bit = bit + 1;
        }
        assert(data@.subrange(0, i + 1).drop_last() =~= data@.subrange(0, i as int));
        i = i + 1;
    }
    assert(data@.subrange(0, i as int) =~= data@);
    !crc
}

/// Computes the Adler-32 checksum of `data`.
pub fn adler32(data: &[u8]) -> (r: u32)
    ensures
        r == adler32_of(data@),
{
    let mut a: u32 = 1;
    let mut b: u32 = 0;
    let mut i: usize = 0;
    while i < data.len()
        invariant
            i <= data@.len(),
            (a as nat, b as nat) == adler_sums(data@.subrange(0, i as int)),
            a < 65521,
            b < 65521,
        decreases data.len() - i,
    {
        assert(data@.subrange(0, i + 1).drop_last() =~= data@.subrange(0, i as int));
        a = (a + data[i] as u32) % 65521;
        b = (b + a) % 65521;
        i = i + 1;
    }
    assert(data@.subrange(0, i as int) =~= data@);
    let r = (b << 16) | a;
    assert(r == b * 65536 + a) by (bit_vector)
        requires
            r == (b << 16) | a,
            a < 65521,
            b < 65521,
    ;
    r
}

/// Wraps `data` in a zlib stream of uncompressed DEFLATE blocks.
pub fn zlib_store(data: &[u8]) -> (r: Vec<u8>)
    ensures
        r@ == zlib_stored(data@),
{
    let mut zlib: Vec<u8> = Vec::new();
    zlib.push(0x78);
    zlib.push(0x01);
    let mut start: usize = 0;
    assert(data@.skip(0) =~= data@);
    while start < data.len()
        invariant
            start <= data@.len(),
            zlib@ + stored_blocks(data@.skip(start as int)) == seq![0x78u8, 0x01u8]
                + stored_blocks(data@),
        decreases data.len() - start,
    {
        let remaining = data.len() - start;
        let ghost before = zlib@;
        let ghost rest = data@.skip(start as int);
        if remaining <= 65535 {
            zlib.push(1);
            push_le16(&mut zlib, remaining);
            push_le16(&mut zlib, 65535 - remaining);
            push_all(&mut zlib, data, start, data.len());
            assert(rest =~= data@.subrange(start as int, data@.len() as int));
            assert(zlib@ =~= before + stored_block(true, rest));
            assert(data@.skip(data@.len() as int) =~= Seq::<u8>::empty());
            start = data.len();
        } else {
            zlib.push(0);
            push_le16(&mut zlib, 65535);
            push_le16(&mut zlib, 0);
            push_all(&mut zlib, data, start, start + 65535);
            assert(rest.take(65535) =~= data@.subrange(start as int, start + 65535));
            assert(zlib@ =~= before + stored_block(false, rest.take(65535)));
            assert(rest.skip(65535) =~= data@.skip(start + 65535));
            start = start + 65535;
        }
    }
    assert(data@.skip(start as int) =~= Seq::<u8>::empty());
    assert(zlib@ + Seq::<u8>::empty() =~= zlib@);
    push_be32(&mut zlib, adler32(data));
    zlib
}

/// Appends a PNG chunk of the given kind holding `data`.
pub fn write_chunk(png: &mut Vec<u8>, kind: [u8; 4], data: &[u8])
    requires
        data@.len() <= u32::MAX,
    ensures
        final(png)@ == old(png)@ + png_chunk(kind@, data@),
{
    let length = data.len() as u32;
    push_be32(png, length);
    let mut covered: Vec<u8> = Vec::new();
    let mut k: usize = 0;
    while k < 4
        invariant
            k <= 4,
            covered@ == kind@.subrange(0, k as int),
            png@ == old(png)@ + be32(length) + kind@.subrange(0, k as int),
        decreases 4 - k,
    {
        png.push(kind[k]);
        covered.push(kind[k]);
        assert(kind@.subrange(0, k + 1) =~= kind@.subrange(0, k as int).push(kind@[k as int]));
        k = k + 1;
    }
    assert(kind@.subrange(0, 4) =~= kind@);
    push_all(png, data, 0, data.len());
    push_all(&mut covered, data, 0, data.len());
    assert(data@.subrange(0, data@.len() as int) =~= data@);
    push_be32(png, crc32(covered.as_slice()));
    assert(final(png)@ =~= old(png)@ + png_chunk(kind@, data@));
}


proof fn lemma_row_bounds(row: nat, width: nat, height: nat)
    requires
        row < height,
    ensures
        row * width + width == (row + 1) * width,
        (row + 1) * width <= width * height,
{
    assert(row * width + width == (row + 1) * width) by (nonlinear_arith);
    assert((row + 1) * width <= width * height) by (nonlinear_arith)
        requires
            row < height,
    ;
}

/// Builds the filtered scanlines of `buffer`: each row is a filter byte of
/// zero followed by the row's RGBA bytes.
pub fn scanlines(buffer: &PixelBuffer) -> (r: Result<Vec<u8>, PngError>)
    requires
        buffer.well_formed(),
    ensures
        scanlines_fit(buffer@.width, buffer@.height) ==> (r matches Ok(v) && v@ == scanline_rows(
            buffer@.pixels,
            buffer@.width,
            buffer@.height,
        )),
        !scanlines_fit(buffer@.width, buffer@.height) ==> r == Err::<Vec<u8>, PngError>(
            PngError::DataTooLarge,
        ),
{
    let width = buffer.width() as usize;
    let height = buffer.height() as usize;
    let row_length = match width.checked_mul(4) {
        Some(n) => n,
        None => return Err(PngError::DataTooLarge),
    };
    match row_length.checked_add(1) {
        Some(n) => match n.checked_mul(height) {
            Some(_) => {},
            None => return Err(PngError::DataTooLarge),
        },
        None => return Err(PngError::DataTooLarge),
    }
    let pixels = buffer.pixels();
    let ghost p = pixels@;
    let mut out: Vec<u8> = Vec::new();
    let mut row: usize = 0;
    while row < height
        invariant
            row <= height,
            p == pixels@,
            p.len() == width * height,
            out@ == scanline_rows(p, width as nat, row as nat),
        decreases height - row,
    {
        proof {
            lemma_row_bounds(row as nat, width as nat, height as nat);
        }
        out.push(0);
        let mut col: usize = 0;
        assert(p.subrange(row * width, row * width + 0) =~= Seq::<Pixel>::empty());
        while col < width
            invariant
                row < height,
                col <= width,
                row * width + width == (row + 1) * width,
                (row + 1) * width <= width * height,
                p == pixels@,
                p.len() == width * height,
                out@ == scanline_rows(p, width as nat, row as nat) + seq![0u8] + pixels_bytes(
                    p.subrange(row * width, row * width + col),
                ),
            decreases width - col,
        {
            let n = pixels.len();
            assert(row * width + col < n);
            let index = row * width + col;
            let pixel = pixels[index];
            let ghost before = out@;
            out.push(pixel.red);
            out.push(pixel.green);
            out.push(pixel.blue);
            out.push(pixel.alpha);
            assert(p.subrange(row * width, row * width + col + 1).drop_last() =~= p.subrange(
                row * width,
                row * width + col,
            ));
            assert(out@ =~= before + pixel_bytes(pixel));
            col = col + 1;
        }
        assert(out@ == scanline_rows(p, width as nat, (row + 1) as nat));
        row = row + 1;
    }
    Ok(out)
}

/// Encodes `buffer` as a PNG image: 8-bit RGBA, no interlacing, with the
/// image data stored uncompressed.
///
/// Returns [`PngError::InvalidDimensions`] for an empty image and
/// [`PngError::DataTooLarge`] when the scanlines do not fit in memory.
pub fn encode(buffer: &PixelBuffer) -> (r: Result<Vec<u8>, PngError>)
    requires
        buffer.well_formed(),
    ensures
        buffer@.width == 0 || buffer@.height == 0 ==> r == Err::<Vec<u8>, PngError>(
            PngError::InvalidDimensions,
        ),
        buffer@.width > 0 && buffer@.height > 0 && !scanlines_fit(buffer@.width, buffer@.height)
            ==> r == Err::<Vec<u8>, PngError>(PngError::DataTooLarge),
        buffer@.width > 0 && buffer@.height > 0 && scanlines_fit(buffer@.width, buffer@.height)
            ==> (r matches Ok(v) && v@ == png_file(
            buffer@.width as u32,
            buffer@.height as u32,
            buffer@.pixels,
        )),
{
    if buffer.width() == 0 || buffer.height() == 0 {
        return Err(PngError::InvalidDimensions);
    }
    let rows = match scanlines(buffer) {
        Ok(rows) => rows,
        Err(e) => return Err(e),
    };
    let compressed = zlib_store(rows.as_slice());
    let mut png: Vec<u8> = Vec::new();
    png.push(137);
    png.push(80);
    png.push(78);
    png.push(71);
    png.push(13);
    png.push(10);
    png.push(26);
    png.push(10);
    assert(png@ =~= png_signature());
    let width = buffer.width();
    let height = buffer.height();
    let mut header: Vec<u8> = Vec::new();
    push_be32(&mut header, width);
    push_be32(&mut header, height);
    header.push(8);
    header.push(6);
    header.push(0);
    header.push(0);
    header.push(0);
    assert(header@ =~= png_header(width, height));
    let ihdr_kind: [u8; 4] = [73, 72, 68, 82];
    assert(ihdr_kind@ =~= ihdr());
    write_chunk(&mut png, ihdr_kind, header.as_slice());
    let ghost prefix = png@;
    let data = compressed.as_slice();
    let idat_kind: [u8; 4] = [73, 68, 65, 84];
    assert(idat_kind@ =~= idat());
    let mut start: usize = 0;
    assert(data@.skip(0) =~= data@);
    while start < data.len()
        invariant
            start <= data@.len(),
            idat_kind@ == idat(),
            png@ + idat_chunks(data@.skip(start as int)) == prefix + idat_chunks(data@),
        decreases data.len() - start,
    {
        let remaining = data.len() - start;
        let ghost before = png@;
        let ghost rest = data@.skip(start as int);
        let mut piece: Vec<u8> = Vec::new();
        if remaining <= u32::MAX as usize {
            push_all(&mut piece, data, start, data.len());
            assert(piece@ =~= rest);
            write_chunk(&mut png, idat_kind, piece.as_slice());
            assert(data@.skip(data@.len() as int) =~= Seq::<u8>::empty());
            assert(png@ + Seq::<u8>::empty() =~= png@);
            start = data.len();
        } else {
            let end = start + u32::MAX as usize;
            push_all(&mut piece, data, start, end);
            assert(piece@ =~= rest.take(u32::MAX as int));
            write_chunk(&mut png, idat_kind, piece.as_slice());
            assert(rest.skip(u32::MAX as int) =~= data@.skip(end as int));
            assert(png@ + idat_chunks(data@.skip(end as int)) =~= before + idat_chunks(rest));
            start = end;
        }
    }
    assert(data@.skip(start as int) =~= Seq::<u8>::empty());
    assert(png@ + Seq::<u8>::empty() =~= png@);
    let iend_kind: [u8; 4] = [73, 69, 78, 68];
    assert(iend_kind@ =~= iend());
    let empty: Vec<u8> = Vec::new();
    write_chunk(&mut png, iend_kind, empty.as_slice());
    assert(png@ =~= png_file(width, height, buffer@.pixels));
    Ok(png)
}

impl PixelBuffer {
    /// Encodes this buffer as a PNG image; see [`encode`].
    pub fn encode_png(&self) -> (r: Result<Vec<u8>, PngError>)
        requires
            self.well_formed(),
        ensures
            self@.width == 0 || self@.height == 0 ==> r == Err::<Vec<u8>, PngError>(
                PngError::InvalidDimensions,
            ),
            self@.width > 0 && self@.height > 0 && !scanlines_fit(self@.width, self@.height)
                ==> r == Err::<Vec<u8>, PngError>(PngError::DataTooLarge),
            self@.width > 0 && self@.height > 0 && scanlines_fit(self@.width, self@.height) ==> (
            r matches Ok(v) && v@ == png_file(self@.width as u32, self@.height as u32, self@.pixels)),
    {
        encode(self)
    }
}

} // verus!
