use ed25519_dalek::{PublicKey, SecretKey};
use nanodb::captcha::{decrypt_seed_bytes, Captcha, CaptchaError, InvalidSignature};
use nanodb::hex::byte_array_to_hex_string;
use sha2::{Digest, Sha512};

const ANSWER: &str = "bavzr";

fn make_captcha(answer: &str) -> [u8; 189] {
    let seed = [7u8; 32];
    let secret = SecretKey::from_bytes(&seed).unwrap();
    let public: PublicKey = (&secret).into();
    let public_hex = byte_array_to_hex_string(public.as_bytes());
    let hash = Sha512::digest(format!("{}{}", answer, public_hex).as_bytes());
    let mut blob = [0u8; 189];
    blob[..32].copy_from_slice(public.as_bytes());
    for i in 0..32 {
        blob[32 + i] = seed[i] ^ hash[i & 63];
    }
    for i in 0..125 {
        blob[64 + i] = i as u8;
    }
    blob
}

#[test]
fn signature_for_the_right_answer_verifies() {
    let post = "super post!";
    let captcha = Captcha::new(make_captcha(ANSWER)).unwrap();
    let signature = captcha.try_sign(ANSWER, post).unwrap();
    assert_eq!(signature.len(), 128);
    assert!(captcha.signature_correct(post, &signature).is_ok());
    assert_eq!(captcha.signature_correct("other post", &signature), Err(InvalidSignature));
}

#[test]
fn no_signature_for_a_wrong_answer() {
    let captcha = Captcha::new(make_captcha(ANSWER)).unwrap();
    assert!(captcha.try_sign("pirog", "ya pirog").is_none());
}

#[test]
fn malformed_signatures_are_rejected() {
    let captcha = Captcha::new(make_captcha(ANSWER)).unwrap();
    assert_eq!(captcha.signature_correct("p", "xyz"), Err(InvalidSignature));
    assert_eq!(captcha.signature_correct("p", "abcd"), Err(InvalidSignature));
    assert_eq!(captcha.signature_correct("p", &"0".repeat(128)), Err(InvalidSignature));
}

#[test]
fn decrypted_seed_is_unlocked_by_the_answer() {
    let blob = make_captcha(ANSWER);
    let captcha = Captcha::new(blob).unwrap();
    assert_eq!(captcha.decrypt_seed(ANSWER), vec![7u8; 32]);
    assert_ne!(captcha.decrypt_seed("wrong"), vec![7u8; 32]);
}

#[test]
fn seed_bytes_are_xored_with_the_digest() {
    let seed = vec![0xffu8, 0x0f, 0x00];
    let mut hash = vec![0u8; 64];
    hash[0] = 0x0f;
    hash[1] = 0xff;
    hash[2] = 0x12;
    assert_eq!(decrypt_seed_bytes(&seed, &hash), vec![0xf0, 0xf0, 0x12]);
}

#[test]
fn invalid_public_key_is_rejected() {
    let mut blob = make_captcha(ANSWER);
    let mut key = [0u8; 32];
    let mut y: u8 = 2;
    key[0] = y;
    while PublicKey::from_bytes(&key).is_ok() {
        y += 1;
        key[0] = y;
    }
    blob[..32].copy_from_slice(&key);
    assert!(matches!(Captcha::new(blob), Err(CaptchaError::InvalidPublicKey)));
}

#[test]
fn image_bits_are_read_column_by_column() {
    let captcha = Captcha::new(make_captcha(ANSWER)).unwrap();
    // image byte 1 is 0b0000_0001: pixel 8, which is (0, 8), is black
    assert!(captcha.pixel_is_black(0, 8));
    assert!(!captcha.pixel_is_black(0, 0));
    assert!(!captcha.pixel_is_black(0, 9));
    // image byte 3 is 0b0000_0011: pixels 24 and 25, which are (1, 4) and (1, 5)
    assert!(captcha.pixel_is_black(1, 4));
    assert!(captcha.pixel_is_black(1, 5));
}

#[test]
fn captcha_image_is_black_on_white() {
    let captcha = Captcha::new(make_captcha(ANSWER)).unwrap();
    let img = captcha.build_image();
    assert_eq!((img.width, img.height), (50, 20));
    assert_eq!(img.components.len(), 3000);
    // pixel (0, 8) is black: row 8, column 0
    let p = 8 * 50;
    assert_eq!(&img.components[3 * p..3 * p + 3], &[0, 0, 0]);
    assert_eq!(&img.components[0..3], &[255, 255, 255]);
}
