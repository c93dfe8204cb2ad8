use bmp::{padding, Error, Rgb, RgbImage};

fn sample_2x2() -> RgbImage {
    RgbImage::new(
        vec![
            Rgb::new(255, 0, 0),
            Rgb::new(0, 255, 0),
            Rgb::new(0, 0, 255),
            Rgb::new(255, 255, 255),
        ],
        2,
    )
}

fn u32_at(b: &[u8], i: usize) -> u32 {
    u32::from_le_bytes([b[i], b[i + 1], b[i + 2], b[i + 3]])
}

fn u16_at(b: &[u8], i: usize) -> u16 {
    u16::from_le_bytes([b[i], b[i + 1]])
}

fn gradient(width: u32, height: u32) -> Vec<Rgb> {
    let mut pixels = Vec::new();
    for y in 0..height {
        for x in 0..width {
            let color = (((((x + y) as f32) * 0.1).sin() + 1.0).clamp(0.0, 2.0) * 128.0) as u8;
            pixels.push(Rgb::new(color, color, color));
        }
    }
    pixels
}

#[test]
fn save_bmp() {
    let width = 30;
    let height = 30;
    let bytes = RgbImage::new(gradient(width, height), width).to_bmp_bytes();
    assert_eq!(bytes.len(), 54 + 30 * (90 + 2));
    assert!(RgbImage::from_bmp_bytes(&bytes).is_ok());
}

#[test]
fn test_load() {
    let bytes = RgbImage::new(gradient(30, 30), 30).to_bmp_bytes();
    let res = RgbImage::from_bmp_bytes(&bytes);
    assert!(res.is_ok(), "Error: {}", res.as_ref().unwrap_err().message());

    let mut pic = res.unwrap();
    for p in pic.pixels.as_mut_slice() {
        p.r = 255 - p.r;
        p.g = 255 - p.g;
        p.b = 255 - p.b;
    }
    let inverted = pic.to_bmp_bytes();
    let back = RgbImage::from_bmp_bytes(&inverted).unwrap();
    assert_eq!(back.width, 30);
    assert_eq!(back.pixels, pic.pixels);
    assert_eq!(back.pixels[0].r, 255 - 128);
}

#[test]
fn two_by_two_scenario() {
    let img = sample_2x2();
    let bytes = img.to_bmp_bytes();
    assert_eq!(bytes.len(), 70);
    let back = RgbImage::from_bmp_bytes(&bytes).unwrap();
    assert_eq!(back.width, 2);
    assert_eq!(back.pixels, img.pixels);
}

#[test]
fn two_by_two_header_fields() {
    let bytes = sample_2x2().to_bmp_bytes();
    assert_eq!(&bytes[0..2], b"BM");
    assert_eq!(u32_at(&bytes, 2), 70);
    assert_eq!(u32_at(&bytes, 6), 0);
    assert_eq!(u32_at(&bytes, 10), 54);
    assert_eq!(u32_at(&bytes, 14), 40);
    assert_eq!(u32_at(&bytes, 18), 2);
    assert_eq!(u32_at(&bytes, 22), 2);
    assert_eq!(u16_at(&bytes, 26), 1);
    assert_eq!(u16_at(&bytes, 28), 24);
    assert_eq!(u32_at(&bytes, 30), 0);
    assert_eq!(u32_at(&bytes, 34), 0);
    assert_eq!(u32_at(&bytes, 38), 2);
    assert_eq!(u32_at(&bytes, 42), 2);
    assert_eq!(u32_at(&bytes, 46), 16777216);
    assert_eq!(u32_at(&bytes, 50), 0);
}

#[test]
fn two_by_two_pixel_bytes() {
    let bytes = sample_2x2().to_bmp_bytes();
    // bottom row first (blue, white), each pixel as B, G, R, then two zero bytes
    assert_eq!(
        &bytes[54..70],
        &[255, 0, 0, 255, 255, 255, 0, 0, 0, 0, 255, 0, 255, 0, 0, 0]
    );
}

#[test]
fn round_trip_odd_width() {
    let pixels: Vec<Rgb> = (0..15u8).map(|i| Rgb::new(i, i * 2, 255 - i)).collect();
    let img = RgbImage::new(pixels, 5);
    let bytes = img.to_bmp_bytes();
    assert_eq!(bytes.len(), 54 + 3 * (15 + 1));
    let back = RgbImage::from_bmp_bytes(&bytes).unwrap();
    assert_eq!(back.width, 5);
    assert_eq!(back.pixels, img.pixels);
}

#[test]
fn round_trip_empty_image() {
    let img = RgbImage::new(vec![], 3);
    let bytes = img.to_bmp_bytes();
    assert_eq!(bytes.len(), 54);
    assert_eq!(u32_at(&bytes, 22), 0);
    let back = RgbImage::from_bmp_bytes(&bytes).unwrap();
    assert_eq!(back.width, 3);
    assert!(back.pixels.is_empty());
}

#[test]
fn row_order_inversion() {
    let red = Rgb::new(255, 0, 0);
    let blue = Rgb::new(0, 0, 255);
    let img = RgbImage::new(vec![red, blue], 1);
    let bytes = img.to_bmp_bytes();
    // the bottom row (blue) is stored first
    assert_eq!(&bytes[54..57], &[255, 0, 0]);
    assert_eq!(&bytes[58..61], &[0, 0, 255]);
    let back = RgbImage::from_bmp_bytes(&bytes).unwrap();
    assert_eq!(back.pixels[0], red);
    assert_eq!(back.pixels[1], blue);
}

#[test]
fn padding_values() {
    assert_eq!(padding(0), 0);
    assert_eq!(padding(1), 1);
    assert_eq!(padding(2), 2);
    assert_eq!(padding(3), 3);
    assert_eq!(padding(4), 0);
    assert_eq!(padding(5), 1);
    assert_eq!(padding(u32::MAX), 3);
}

#[test]
fn padded_rows_are_multiples_of_four() {
    for width in 0..1000u64 {
        let p = padding(width as u32) as u64;
        assert!(p <= 3);
        assert_eq!((width * 3 + p) % 4, 0);
    }
}

#[test]
fn signature_rejection() {
    let mut bytes = b"XX".to_vec();
    bytes.extend(vec![0u8; 68]);
    assert_eq!(RgbImage::from_bmp_bytes(&bytes).unwrap_err(), Error::InvalidSignature);
}

#[test]
fn signature_checked_before_truncation() {
    assert_eq!(RgbImage::from_bmp_bytes(b"BX").unwrap_err(), Error::InvalidSignature);
    assert_eq!(RgbImage::from_bmp_bytes(b"MB").unwrap_err(), Error::InvalidSignature);
}

#[test]
fn header_size_rejection() {
    let mut bytes = sample_2x2().to_bmp_bytes();
    bytes[14..18].copy_from_slice(&38u32.to_le_bytes());
    assert_eq!(RgbImage::from_bmp_bytes(&bytes).unwrap_err(), Error::InvalidHeaderSize(38));
}

#[test]
fn plane_count_rejection() {
    let mut bytes = sample_2x2().to_bmp_bytes();
    bytes[26..28].copy_from_slice(&2u16.to_le_bytes());
    assert_eq!(RgbImage::from_bmp_bytes(&bytes).unwrap_err(), Error::UnsupportedPlaneCount(2));
}

#[test]
fn color_depth_rejection() {
    let mut bytes = sample_2x2().to_bmp_bytes();
    bytes[28..30].copy_from_slice(&8u16.to_le_bytes());
    assert_eq!(RgbImage::from_bmp_bytes(&bytes).unwrap_err(), Error::UnsupportedColorDepth(8));
}

#[test]
fn compression_rejection() {
    let mut bytes = sample_2x2().to_bmp_bytes();
    bytes[30..34].copy_from_slice(&1u32.to_le_bytes());
    assert_eq!(RgbImage::from_bmp_bytes(&bytes).unwrap_err(), Error::UnsupportedCompression(1));
}

#[test]
fn header_errors_come_before_truncation() {
    let mut bytes = sample_2x2().to_bmp_bytes();
    bytes[28..30].copy_from_slice(&8u16.to_le_bytes());
    bytes.truncate(30);
    assert_eq!(RgbImage::from_bmp_bytes(&bytes).unwrap_err(), Error::UnsupportedColorDepth(8));
}

#[test]
fn truncated_inputs() {
    let bytes = sample_2x2().to_bmp_bytes();
    for len in [0usize, 1, 13, 17, 40, 53, 54, 60, 69] {
        assert_eq!(
            RgbImage::from_bmp_bytes(&bytes[..len]).unwrap_err(),
            Error::FileError,
            "length {}",
            len
        );
    }
}

#[test]
fn stored_offset_and_size_are_not_checked() {
    let mut bytes = sample_2x2().to_bmp_bytes();
    bytes[2..6].copy_from_slice(&1u32.to_le_bytes());
    bytes[10..14].copy_from_slice(&999u32.to_le_bytes());
    bytes.extend([9u8, 9, 9]);
    let back = RgbImage::from_bmp_bytes(&bytes).unwrap();
    assert_eq!(back.pixels, sample_2x2().pixels);
}

#[test]
fn error_messages() {
    assert_eq!(Error::InvalidSignature.message(), "Invalid Signature");
    assert_eq!(
        Error::InvalidHeaderSize(38).message(),
        "Invalid header size, expected 40, got 38"
    );
    assert_eq!(
        Error::UnsupportedPlaneCount(2).message(),
        "Unsupported plane count, expected 1, got 2"
    );
    assert_eq!(
        Error::UnsupportedColorDepth(8).message(),
        "Unsupported color depth, expected 24, got 8"
    );
    assert_eq!(
        Error::UnsupportedCompression(4294967295).message(),
        "Unsupported compression, expected 0, got 4294967295"
    );
    assert_eq!(Error::InvalidHeaderSize(0).message(), "Invalid header size, expected 40, got 0");
    assert_eq!(Error::FileError.message(), "File Error: failed to fill whole buffer");
}

#[test]
fn pixel_constructors() {
    let p = Rgb::new(1, 2, 3);
    assert_eq!((p.r, p.g, p.b), (1, 2, 3));
    assert_eq!(Rgb::default(), Rgb::new(0, 0, 0));
    let img = RgbImage::new(vec![p, p], 2);
    assert_eq!(img.width, 2);
    assert_eq!(img.pixels, vec![p, p]);
}
