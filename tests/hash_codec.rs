use fedbot::hash::{decode, encode, hash_image, DecodeError, FixedHash};
use fedbot::HASH_BYTES;
use std::io::Cursor;

fn png(pattern: u32) -> Vec<u8> {
    let img = image::RgbImage::from_fn(32, 32, |x, y| {
        let v = match pattern {
            0 => (x * 8) as u8,
            1 => (y * 8) as u8,
            _ => (((x / 4) + (y / 4)) % 2 * 255) as u8,
        };
        image::Rgb([v, v, v])
    });
    let mut out = Cursor::new(Vec::new());
    image::DynamicImage::ImageRgb8(img)
        .write_to(&mut out, image::ImageOutputFormat::Png)
        .unwrap();
    out.into_inner()
}

#[test]
fn decode_accepts_exactly_hash_bytes() {
    let bytes = [1u8, 2, 3, 4, 5, 6, 7, 8];
    let h = decode(&bytes).unwrap();
    assert_eq!(h.bytes, bytes);
    assert_eq!(HASH_BYTES, 8);
}

#[test]
fn decode_rejects_wrong_length() {
    assert_eq!(decode(&[1u8, 2, 3]), Err(DecodeError::WrongLength));
    assert_eq!(decode(&[0u8; 9]), Err(DecodeError::WrongLength));
    assert_eq!(decode(&[]), Err(DecodeError::WrongLength));
}

#[test]
fn decode_then_encode_gives_the_bytes_back() {
    for seed in 0u8..20 {
        let bytes: Vec<u8> = (0..8u8).map(|i| i.wrapping_mul(37).wrapping_add(seed)).collect();
        let h = decode(&bytes).unwrap();
        assert_eq!(encode(&h).to_vec(), bytes);
        assert_eq!(decode(&encode(&h)).unwrap(), h);
    }
}

#[test]
fn hash_equality_is_byte_equality() {
    let a = FixedHash { bytes: [9, 9, 9, 9, 9, 9, 9, 9] };
    let b = FixedHash { bytes: [9, 9, 9, 9, 9, 9, 9, 9] };
    let c = FixedHash { bytes: [9, 9, 9, 9, 9, 9, 9, 8] };
    assert_eq!(a, b);
    assert_ne!(a, c);
}

#[test]
fn hash_image_gives_eight_bytes_not_the_input() {
    let data = png(0);
    let h = hash_image(&data).unwrap();
    assert_eq!(h.bytes.len(), 8);
    assert_ne!(h.bytes.to_vec(), data[..8].to_vec());
}

#[test]
fn hash_image_is_deterministic_and_tells_images_apart() {
    let a = hash_image(&png(0)).unwrap();
    let a2 = hash_image(&png(0)).unwrap();
    let b = hash_image(&png(1)).unwrap();
    assert_eq!(a, a2);
    assert_ne!(a, b);
}

#[test]
fn hash_image_rejects_non_images() {
    assert_eq!(hash_image(b"not an image at all"), Err(DecodeError::Image));
    assert_eq!(hash_image(&[]), Err(DecodeError::Image));
}
