use py_runtime::checksum::{png_adler32, png_crc32};
use py_runtime::gif::{encode_gif, gif_args_ok, gif_lzw_encode, py_grayscale_palette};
use py_runtime::png::{encode_rgb_png, png_chunk, png_size_ok, zlib_store_compress};

#[test]
fn checksums_of_empty() {
    assert_eq!(png_crc32(&[]), 0);
    assert_eq!(png_adler32(&[]), 1);
}

#[test]
fn checksum_reference_values() {
    assert_eq!(png_crc32(b"123456789"), 0xCBF4_3926);
    assert_eq!(png_crc32(b"IEND"), 0xAE42_6082);
    assert_eq!(png_adler32(b"Wikipedia"), 0x11E6_0398);
}

#[test]
fn chunk_layout() {
    let c = png_chunk(b"IEND", &[]);
    assert_eq!(c, vec![0, 0, 0, 0, 0x49, 0x45, 0x4E, 0x44, 0xAE, 0x42, 0x60, 0x82]);
    let d = png_chunk(b"tEXt", &[1, 2, 3]);
    assert_eq!(&d[0..4], &[0, 0, 0, 3]);
    assert_eq!(&d[4..11], &[0x74, 0x45, 0x58, 0x74, 1, 2, 3]);
    assert_eq!(&d[11..], &png_crc32(&[0x74, 0x45, 0x58, 0x74, 1, 2, 3]).to_be_bytes());
}

#[test]
fn zlib_stored_blocks() {
    let z = zlib_store_compress(&[0, 255, 0, 0, 0, 255, 0]);
    assert_eq!(z, vec![0x78, 0x01, 0x01, 7, 0, 0xF8, 0xFF, 0, 255, 0, 0, 0, 255, 0, 0x07, 0xFF, 0x01, 0xFF]);
    let big = vec![7u8; 70_000];
    let z = zlib_store_compress(&big);
    assert_eq!(z.len(), 2 + 5 + 65_535 + 5 + 4_465 + 4);
    assert_eq!(&z[2..7], &[0x00, 0xFF, 0xFF, 0x00, 0x00]);
    assert_eq!(&z[7 + 65_535..7 + 65_535 + 5], &[0x01, 0x71, 0x11, 0x8E, 0xEE]);
    assert_eq!(&z[z.len() - 4..], &png_adler32(&big).to_be_bytes());
    assert_eq!(zlib_store_compress(&[]), vec![0x78, 0x01, 0, 0, 0, 1]);
}

#[test]
fn png_two_by_one() {
    let png = encode_rgb_png(2, 1, &[255, 0, 0, 0, 255, 0]);
    assert_eq!(&png[0..8], &[0x89, 0x50, 0x4E, 0x47, 0x0D, 0x0A, 0x1A, 0x0A]);
    assert_eq!(&png[8..16], &[0, 0, 0, 13, 0x49, 0x48, 0x44, 0x52]);
    assert_eq!(&png[16..29], &[0, 0, 0, 2, 0, 0, 0, 1, 8, 2, 0, 0, 0]);
    assert_eq!(&png[png.len() - 12..], &[0, 0, 0, 0, 0x49, 0x45, 0x4E, 0x44, 0xAE, 0x42, 0x60, 0x82]);
    let idat = zlib_store_compress(&[0, 255, 0, 0, 0, 255, 0, 0, 255, 0]);
    let _ = idat;
    let scan = zlib_store_compress(&[0, 255, 0, 0, 0, 255, 0]);
    assert_eq!(&png[33..37], &(scan.len() as u32).to_be_bytes());
    assert_eq!(&png[37..41], b"IDAT");
    assert_eq!(&png[41..41 + scan.len()], &scan[..]);
    assert_eq!(png.len(), 8 + 25 + 12 + scan.len() + 12);
}

#[test]
fn png_pixels_come_back_from_stored_rows() {
    let (w, h) = (3usize, 2usize);
    let pixels: Vec<u8> = (0..(w * h * 3) as u8).collect();
    let png = encode_rgb_png(w as i64, h as i64, &pixels);
    let idat_len = u32::from_be_bytes([png[33], png[34], png[35], png[36]]) as usize;
    let z = &png[41..41 + idat_len];
    let n = u16::from_le_bytes([z[3], z[4]]) as usize;
    let raw = &z[7..7 + n];
    let mut back = Vec::new();
    for row in raw.chunks(w * 3 + 1) {
        assert_eq!(row[0], 0);
        back.extend_from_slice(&row[1..]);
    }
    assert_eq!(back, pixels);
}

#[test]
fn png_size_checks() {
    assert!(png_size_ok(2, 1, 6));
    assert!(!png_size_ok(2, 1, 5));
    assert!(!png_size_ok(0, 1, 0));
    assert!(!png_size_ok(1, -1, 3));
    assert!(!png_size_ok(1 << 40, 1, 0));
}

#[test]
fn grayscale_palette_entries() {
    let p = py_grayscale_palette();
    assert_eq!(p.len(), 768);
    for i in 0..256 {
        assert_eq!(&p[3 * i..3 * i + 3], &[i as u8, i as u8, i as u8]);
    }
}

#[test]
fn lzw_single_pixel() {
    assert_eq!(gif_lzw_encode(&[0]), vec![0x00, 0x01, 0x00, 0x0C, 0x08]);
    assert_eq!(gif_lzw_encode(&[]), vec![0x00, 0x03, 0x02]);
}

fn read_codes(bytes: &[u8], count: usize) -> Vec<u16> {
    let mut out = Vec::new();
    for k in 0..count {
        let mut c = 0u16;
        for j in 0..9 {
            let bit = 9 * k + j;
            if (bytes[bit / 8] >> (bit % 8)) & 1 == 1 {
                c |= 1 << j;
            }
        }
        out.push(c);
    }
    out
}

#[test]
fn lzw_codes_decode_to_literals() {
    let data: Vec<u8> = vec![5, 200, 0, 255, 17, 17, 3];
    let out = gif_lzw_encode(&data);
    let n_codes = 2 * data.len() + 2;
    assert_eq!(out.len(), (9 * n_codes + 7) / 8);
    let codes = read_codes(&out, n_codes);
    assert_eq!(codes[0], 256);
    for (i, v) in data.iter().enumerate() {
        assert_eq!(codes[1 + 2 * i], *v as u16);
        assert_eq!(codes[2 + 2 * i], 256);
    }
    assert_eq!(codes[n_codes - 1], 257);
}

#[test]
fn gif_one_pixel_frame() {
    let palette = py_grayscale_palette();
    let frames = vec![vec![0u8]];
    let gif = encode_gif(1, 1, &frames, &palette, 4, 0);
    assert_eq!(&gif[0..6], b"GIF89a");
    assert_eq!(&gif[6..13], &[1, 0, 1, 0, 0xF7, 0, 0]);
    assert_eq!(&gif[13..781], &palette[..]);
    assert_eq!(&gif[781..800], b"\x21\xFF\x0BNETSCAPE2.0\x03\x01\x00\x00\x00");
    assert_eq!(&gif[800..808], &[0x21, 0xF9, 0x04, 0x00, 4, 0, 0, 0]);
    assert_eq!(&gif[808..818], &[0x2C, 0, 0, 0, 0, 1, 0, 1, 0, 0]);
    assert_eq!(&gif[818..], &[8, 5, 0x00, 0x01, 0x00, 0x0C, 0x08, 0, 0x3B]);
}

#[test]
fn gif_long_frame_uses_sub_blocks() {
    let palette = py_grayscale_palette();
    let frame: Vec<u8> = (0..300u32).map(|i| (i % 256) as u8).collect();
    let frames = vec![frame.clone(), frame.clone()];
    let gif = encode_gif(20, 15, &frames, &palette, 10, 3);
    assert_eq!(&gif[797..799], &[3, 0]);
    let lzw = gif_lzw_encode(&frame);
    let mut pos = 800 + 8 + 10 + 1;
    let mut data = Vec::new();
    loop {
        let n = gif[pos] as usize;
        pos += 1;
        if n == 0 {
            break;
        }
        assert!(n <= 255);
        data.extend_from_slice(&gif[pos..pos + n]);
        pos += n;
    }
    assert_eq!(data, lzw);
    assert_eq!(*gif.last().unwrap(), 0x3B);
    assert_eq!(gif.len(), 2 * (pos - 800) + 800 + 1);
}

#[test]
fn gif_argument_checks() {
    let frames = vec![vec![0u8; 4]];
    assert!(gif_args_ok(2, 2, &frames, 768));
    assert!(!gif_args_ok(2, 2, &frames, 767));
    assert!(!gif_args_ok(2, 3, &frames, 768));
    assert!(!gif_args_ok(70_000, 1, &[], 768));
    assert!(!gif_args_ok(-1, 1, &[], 768));
}

#[test]
fn gif_delay_and_loop_keep_low_16_bits() {
    let palette = py_grayscale_palette();
    let frames = vec![vec![0u8]];
    let gif = encode_gif(1, 1, &frames, &palette, -1, 70_000);
    assert_eq!(&gif[797..799], &[0x70, 0x11]);
    assert_eq!(&gif[804..806], &[0xFF, 0xFF]);
    let gif = encode_gif(1, 1, &frames, &palette, 65_536 + 7, -65_536);
    assert_eq!(&gif[797..799], &[0, 0]);
    assert_eq!(&gif[804..806], &[7, 0]);
}

#[test]
fn gif_empty_frame_has_clear_and_end() {
    let palette = py_grayscale_palette();
    let frames = vec![Vec::<u8>::new()];
    let gif = encode_gif(0, 0, &frames, &palette, 0, 0);
    assert_eq!(&gif[818..], &[8, 3, 0x00, 0x03, 0x02, 0, 0x3B]);
}
