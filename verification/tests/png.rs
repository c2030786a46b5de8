use torn::png::{adler32, crc32, zlib_store};
use torn::{Pixel, PixelBuffer, PixelBufferError, PngError};

fn chunk(png: &[u8], offset: usize) -> (&[u8], usize) {
    let length = u32::from_be_bytes(png[offset..offset + 4].try_into().expect("chunk length"));
    let length = usize::try_from(length).expect("chunk length fits usize");
    let data_start = offset + 8;
    let end = data_start + length + 4;
    (&png[data_start..data_start + length], end)
}

fn inflate_stored(zlib: &[u8]) -> Vec<u8> {
    assert_eq!(&zlib[..2], &[0x78, 0x01]);

    let mut offset = 2;
    let mut data = Vec::new();
    loop {
        let final_block = zlib[offset] == 1;
        offset += 1;
        let length = u16::from_le_bytes(zlib[offset..offset + 2].try_into().expect("length"));
        offset += 2;
        let complement =
            u16::from_le_bytes(zlib[offset..offset + 2].try_into().expect("length complement"));
        offset += 2;
        assert_eq!(complement, !length);

        let length = usize::from(length);
        data.extend_from_slice(&zlib[offset..offset + length]);
        offset += length;
        if final_block {
            break;
        }
    }

    assert_eq!(adler32(&data).to_be_bytes(), zlib[offset..offset + 4]);
    assert_eq!(offset + 4, zlib.len());
    data
}

#[test]
fn encodes_a_valid_rgba_png() {
    let buffer = PixelBuffer::new(1, 1).expect("small test buffer");

    let png = buffer.encode_png().expect("valid PNG");
    assert_eq!(&png[..8], &[137, 80, 78, 71, 13, 10, 26, 10]);
    assert_eq!(&png[8..12], &[0, 0, 0, 13]);
    assert_eq!(&png[12..16], b"IHDR");
    assert_eq!(&png[16..29], &[0, 0, 0, 1, 0, 0, 0, 1, 8, 6, 0, 0, 0]);
    assert_eq!(&png[29..33], &[31, 21, 196, 137]);

    let (idat, end) = chunk(&png, 33);
    assert_eq!(&png[37..41], b"IDAT");
    assert_eq!(crc32(&png[37..end - 4]).to_be_bytes(), png[end - 4..end]);
    assert_eq!(inflate_stored(idat), &[0, 0, 0, 0, 0]);

    let iend_start = end;
    let (_, end) = chunk(&png, iend_start);
    assert_eq!(&png[iend_start + 4..iend_start + 8], b"IEND");
    assert_eq!(end, png.len());
}

#[test]
fn rejects_zero_sized_images() {
    let buffer = PixelBuffer::new(0, 1).expect("empty test buffer");

    assert!(matches!(buffer.encode_png(), Err(PngError::InvalidDimensions)));
}

#[test]
fn checksums_match_their_standard_check_values() {
    assert_eq!(crc32(b"123456789"), 0xCBF4_3926);
    assert_eq!(crc32(b""), 0);
    assert_eq!(adler32(b"Wikipedia"), 0x11E6_0398);
    assert_eq!(adler32(b""), 1);
}

#[test]
fn stored_zlib_streams_split_long_data_into_final_blocks() {
    let data: Vec<u8> = (0..70_000u32).map(|i| (i % 251) as u8).collect();
    let zlib = zlib_store(&data);
    assert_eq!(zlib[2], 0);
    assert_eq!(&zlib[3..5], &[0xff, 0xff]);
    assert_eq!(zlib.len(), 2 + 5 + 65_535 + 5 + (70_000 - 65_535) + 4);
    assert_eq!(inflate_stored(&zlib), data);
}

#[test]
fn encodes_pixels_row_by_row_with_filter_bytes() {
    let mut buffer = PixelBuffer::new(2, 2).expect("small test buffer");
    assert!(buffer.set(1, 0, Pixel::rgba(1, 2, 3, 4)));
    assert!(buffer.set(0, 1, Pixel::rgba(5, 6, 7, 8)));
    assert!(!buffer.set(2, 0, Pixel::rgba(9, 9, 9, 9)));
    let png = buffer.encode_png().expect("valid PNG");
    let (idat, _) = chunk(&png, 33);
    assert_eq!(
        inflate_stored(idat),
        &[0, 0, 0, 0, 0, 1, 2, 3, 4, 0, 5, 6, 7, 8, 0, 0, 0, 0]
    );
}

#[test]
fn pixel_buffers_address_pixels_in_row_major_order() {
    let mut buffer = PixelBuffer::new(3, 2).expect("small test buffer");
    assert_eq!(buffer.width(), 3);
    assert_eq!(buffer.height(), 2);
    assert_eq!(buffer.pixels().len(), 6);
    assert_eq!(buffer.get(2, 1), Some(Pixel::rgba(0, 0, 0, 0)));
    assert_eq!(buffer.get(3, 0), None);
    assert_eq!(buffer.get(0, 2), None);
    assert!(buffer.set(2, 1, Pixel::rgba(20, 40, 60, 255)));
    assert_eq!(buffer.pixels()[5], Pixel::rgba(20, 40, 60, 255));
    assert_eq!(buffer.get(2, 1), Some(Pixel::rgba(20, 40, 60, 255)));
}

#[test]
fn oversized_pixel_buffers_are_rejected() {
    if usize::BITS == 32 {
        assert_eq!(PixelBuffer::new(u32::MAX, 2), Err(PixelBufferError::TooLarge));
    }
    assert_eq!(PixelBuffer::new(0, u32::MAX).map(|b| b.pixels().len()), Ok(0));
}

#[test]
fn png_errors_describe_themselves() {
    assert_eq!(
        PngError::InvalidDimensions.describe(),
        "PNG images must have a non-zero width and height"
    );
    assert_eq!(
        PngError::DataTooLarge.describe(),
        "PNG scanline data does not fit in memory"
    );
}
