use vstd::prelude::*;
use vstd::string::*;
use vstd::utf8::*;

use ed25519::Signature;
use ed25519_dalek::{ExpandedSecretKey, PublicKey, SecretKey, Verifier};
use sha2::Digest;

use crate::hex::{
    all_hex_digits, byte_array_to_hex_string, bytes_of_hex, hex_of, hex_string_to_byte_array,
};
use crate::stego::{bit_of, StegoImage};

verus! {

/// Bytes of the Ed25519 public key at the start of a captcha.
pub const PUBLIC_KEY_LEN: usize = 32;

/// Bytes of the encrypted seed that follows the key.
pub const SEED_LEN: usize = 32;

/// Bytes of the 50 x 20 one-bit image that follows the seed.
pub const IMAGE_LEN: usize = 125;

/// Bytes of a whole captcha.
pub const CAPTCHA_LEN: usize = 189;

pub const IMAGE_WIDTH: u32 = 50;

pub const IMAGE_HEIGHT: u32 = 20;

/// SHA-512 digest of a byte string.
pub uninterp spec fn sha512_of(data: Seq<u8>) -> Seq<u8>;

/// Whether bytes are an Ed25519 public key: 32 bytes that decompress to a
/// curve point.
pub uninterp spec fn ed25519_key_ok(bytes: Seq<u8>) -> bool;

/// The Ed25519 signature of `message` by the secret key with 32-byte seed
/// `seed`, whose public key is `public_key`.
pub uninterp spec fn ed25519_sign(seed: Seq<u8>, public_key: Seq<u8>, message: Seq<u8>) -> Seq<u8>;

/// Whether `public_key` accepts `signature` of `message`.
pub uninterp spec fn ed25519_verifies(public_key: Seq<u8>, message: Seq<u8>, signature: Seq<u8>) -> bool;

/// Relies on `sha2::Sha512::digest`: the 64-byte digest depends on the input alone.
#[verifier::external_body]
fn sha512_digest(data: &[u8]) -> (r: Vec<u8>)
    ensures
        r@ == sha512_of(data@),
        r@.len() == 64,
{
    sha2::Sha512::digest(data).to_vec()
}

/// Relies on `ed25519_dalek::PublicKey::from_bytes`: it refuses any input that
/// is not 32 bytes long, and otherwise accepts the bytes of a curve point.
#[verifier::external_body]
fn public_key_ok(bytes: &[u8]) -> (r: bool)
    ensures
        r == ed25519_key_ok(bytes@),
        bytes@.len() != 32 ==> !r,
{
    PublicKey::from_bytes(bytes).is_ok()
}

/// Relies on `ExpandedSecretKey::sign` (with `SecretKey::from_bytes`,
/// `ExpandedSecretKey::from`, `PublicKey::from_bytes` and `Signature::to_bytes`
/// converting the arguments and the result): the 64-byte signature depends on
/// the seed, the public key and the message alone, and its last byte is the
/// top of a reduced scalar, below 32.
#[verifier::external_body]
fn sign_message(seed: &[u8], public_key: &[u8], message: &[u8]) -> (r: Vec<u8>)
    requires
        seed@.len() == 32,
        ed25519_key_ok(public_key@),
    ensures
        r@ == ed25519_sign(seed@, public_key@, message@),
        r@.len() == 64,
        r@[63] < 32,
{
    let secret = SecretKey::from_bytes(seed).expect("a seed is 32 bytes");
    let public = PublicKey::from_bytes(public_key).expect("the key was checked");
    ExpandedSecretKey::from(&secret).sign(message, &public).to_bytes().to_vec()
}

/// Relies on `ed25519_dalek::PublicKey::verify` (with `PublicKey::from_bytes`
/// and `ed25519::Signature::from_bytes` converting the arguments; the latter
/// accepts 64 bytes whose last byte is below 32): the answer depends on the
/// key, the message and the signature alone.
#[verifier::external_body]
fn verify_signature(public_key: &[u8], message: &[u8], signature: &[u8]) -> (r: bool)
    requires
        ed25519_key_ok(public_key@),
        signature@.len() == 64,
        signature@[63] < 32,
    ensures
        r == ed25519_verifies(public_key@, message@, signature@),
{
    let public = PublicKey::from_bytes(public_key).expect("the key was checked");
    let signature = Signature::from_bytes(signature).expect("the signature was checked");
    public.verify(message, &signature).is_ok()
}

/// A signature check failed.
#[derive(Debug, Clone, Copy, PartialEq, Eq)]
pub struct InvalidSignature;

#[derive(Debug, Clone, Copy, PartialEq, Eq)]
pub enum CaptchaError {
    /// The first 32 bytes are no Ed25519 public key.
    InvalidPublicKey,
}

/// The seed decrypted with the digest of the answer: byte `i` of the seed
/// xor byte `i mod 64` of the digest.
pub open spec fn decrypted(seed: Seq<u8>, key_hash: Seq<u8>) -> Seq<u8> {
    Seq::new(seed.len(), |i: int| seed[i] ^ key_hash[i % 64])
}

/// What the answer is hashed with: the answer's UTF-8 bytes followed by the
/// lowercase hex of the public key.
pub open spec fn answer_material(answer: Seq<char>, public_key: Seq<u8>) -> Seq<u8> {
    encode_utf8(answer) + encode_utf8(hex_of(public_key))
}

/// A captcha: a public key, a seed encrypted with the answer, and the image
/// that shows the answer.
pub struct Captcha {
    public_key_bytes: Vec<u8>,
    seed: Vec<u8>,
    image: Vec<u8>,
}

impl Captcha {
    pub closed spec fn key_bytes(&self) -> Seq<u8> {
        self.public_key_bytes@
    }

    pub closed spec fn seed(&self) -> Seq<u8> {
        self.seed@
    }

    pub closed spec fn image(&self) -> Seq<u8> {
        self.image@
    }

    pub open spec fn wf(&self) -> bool {
        self.key_bytes().len() == 32 && ed25519_key_ok(self.key_bytes()) && self.seed().len() == 32
            && self.image().len() == 125
    }

    /// Splits a 189-byte captcha into its key, seed and image. Fails where the
    /// key is no Ed25519 public key.
    pub fn new(captcha: [u8; 189]) -> (r: Result<Self, CaptchaError>)
        ensures
            r is Ok <==> ed25519_key_ok(captcha@.subrange(0, 32)),
            r matches Ok(c) ==> c.wf() && c.key_bytes() == captcha@.subrange(0, 32)
                && c.seed() == captcha@.subrange(32, 64) && c.image() == captcha@.subrange(64, 189),
            r is Err ==> r == Err::<Self, CaptchaError>(CaptchaError::InvalidPublicKey),
    {
        let key_bytes = copy_range(&captcha, 0, 32);
        let seed = copy_range(&captcha, 32, 64);
        let image = copy_range(&captcha, 64, 189);
        if public_key_ok(key_bytes.as_slice()) {
            Ok(Captcha { public_key_bytes: key_bytes, seed, image })
        } else {
            Err(CaptchaError::InvalidPublicKey)
        }
    }

    /// What the answer is hashed with.
    pub fn answer_material(&self, answer: &str) -> (r: Vec<u8>)
        ensures
            r@ == answer_material(answer@, self.key_bytes()),
    {
        let hex = byte_array_to_hex_string(self.public_key_bytes.as_slice());
        let mut out = answer.as_bytes_vec();
        let tail = hex.as_str().as_bytes_vec();
        let mut i: usize = 0;
        let ghost front = out@;
        while i < tail.len()
            invariant
                i <= tail@.len(),
                out@ == front + tail@.subrange(0, i as int),
            decreases tail@.len() - i,
        {
            out.push(tail[i]);
            i = i + 1;
            assert(out@ =~= front + tail@.subrange(0, i as int));
        }
        assert(tail@.subrange(0, i as int) =~= tail@);
        out
    }

    /// The secret seed that the answer unlocks; right only for the right answer.
    pub fn decrypt_seed(&self, answer: &str) -> (r: Vec<u8>)
        requires
            self.wf(),
        ensures
            r@ == decrypted(self.seed(), sha512_of(answer_material(answer@, self.key_bytes()))),
    {
        let material = self.answer_material(answer);
        let hash = sha512_digest(material.as_slice());
        decrypt_seed_bytes(self.seed.as_slice(), hash.as_slice())
    }

    /// Signs `post` where `answer` unlocks a secret key that matches the
    /// public key (it signs a probe message so that the public key accepts
    /// it); returns the signature as lowercase hex.
    pub fn try_sign(&self, answer: &str, post: &str) -> (r: Option<String>)
        requires
            self.wf(),
        ensures
            ({
                let seed = decrypted(
                    self.seed(),
                    sha512_of(answer_material(answer@, self.key_bytes())),
                );
                &&& r is Some <==> ed25519_verifies(
                    self.key_bytes(),
                    seq![1u8],
                    ed25519_sign(seed, self.key_bytes(), seq![1u8]),
                )
                &&& r matches Some(s) ==> s@ == hex_of(
                    ed25519_sign(seed, self.key_bytes(), encode_utf8(post@)),
                )
            }),
    {
        let seed = self.decrypt_seed(answer);
        if !self.verify_key(seed.as_slice()) {
            return None;
        }
        let signature = sign_message(
            seed.as_slice(),
            self.public_key_bytes.as_slice(),
            post.as_bytes(),
        );
        Some(byte_array_to_hex_string(signature.as_slice()))
    }

    /// Whether a secret seed signs a probe message so that the public key
    /// accepts it.
    fn verify_key(&self, seed: &[u8]) -> (r: bool)
        requires
            self.wf(),
            seed@.len() == 32,
        ensures
            r == ed25519_verifies(
                self.key_bytes(),
                seq![1u8],
                ed25519_sign(seed@, self.key_bytes(), seq![1u8]),
            ),
    {
        let probe: Vec<u8> = vec![1u8];
        assert(probe@ =~= seq![1u8]);
        let signature = sign_message(seed, self.public_key_bytes.as_slice(), probe.as_slice());
        verify_signature(self.public_key_bytes.as_slice(), probe.as_slice(), signature.as_slice())
    }

    /// Checks a hex signature of `post` against the public key.
    pub fn signature_correct(&self, post: &str, signature: &str) -> (r: Result<(), InvalidSignature>)
        requires
            self.wf(),
        ensures
            r is Ok <==> signature@.len() == 128 && all_hex_digits(signature@) && bytes_of_hex(
                signature@,
            )[63] < 32 && ed25519_verifies(
                self.key_bytes(),
                encode_utf8(post@),
                bytes_of_hex(signature@),
            ),
            r is Err ==> r == Err::<(), InvalidSignature>(InvalidSignature),
    {
        let signature_bytes = match hex_string_to_byte_array(signature) {
            Ok(b) => b,
            Err(_) => {
                return Err(InvalidSignature);
            },
        };
        if signature_bytes.len() != 64 || signature_bytes[63] >= 32 {
            return Err(InvalidSignature);
        }
        if verify_signature(
            self.public_key_bytes.as_slice(),
            post.as_bytes(),
            signature_bytes.as_slice(),
        ) {
            Ok(())
        } else {
            Err(InvalidSignature)
        }
    }

    /// Whether pixel (x, y) of the 50 x 20 captcha image is black. The image
    /// is stored column by column, one bit per pixel, least significant first.
    pub fn pixel_is_black(&self, x: u32, y: u32) -> (r: bool)
        requires
            self.wf(),
            x < 50,
            y < 20,
        ensures
            r == bit_of(self.image(), x * 20 + y),
    {
        let i = (x * 20 + y) as usize;
        let byte = self.image[i / 8];
        let shift = (i % 8) as u8;
        (byte >> shift) & 1 == 1
    }
}

impl Captcha {
    /// The captcha image as RGB components, row by row: black where the
    /// image bit is set, white elsewhere.
    pub fn build_image(&self) -> (r: StegoImage)
        requires
            self.wf(),
        ensures
            r.width == 50 && r.height == 20 && r.wf(),
            forall|p: int, c: int|
                0 <= p < 1000 && 0 <= c < 3 ==> #[trigger] r.components@[3 * p + c] == if bit_of(
                    self.image(),
                    (p % 50) * 20 + p / 50,
                ) {
                    0u8
                } else {
                    255u8
                },
    {
        let mut components: Vec<u8> = Vec::new();
        let mut p: u32 = 0;
        while p < 1000
            invariant
                self.wf(),
                p <= 1000,
                components@.len() == 3 * p,
                forall|q: int, c: int|
                    0 <= q < p && 0 <= c < 3 ==> #[trigger] components@[3 * q + c] == if bit_of(
                        self.image(),
                        (q % 50) * 20 + q / 50,
                    ) {
                        0u8
                    } else {
                        255u8
                    },
            decreases 1000 - p,
        {
            let black = self.pixel_is_black(p % 50, p / 50);
            let v: u8 = if black {
                0
            } else {
                255
            };
            let ghost before = components@;
            components.push(v);
            components.push(v);
            components.push(v);
            assert forall|q: int, c: int| 0 <= q < p + 1 && 0 <= c < 3 implies #[trigger] components@[3
                * q + c] == if bit_of(self.image(), (q % 50) * 20 + q / 50) {
                0u8
            } else {
                255u8
            } by {
                if q < p {
                    assert(components@[3 * q + c] == before[3 * q + c]);
                }
            }
            p = p + 1;
        }
        StegoImage { width: 50, height: 20, components }
    }
}

fn copy_range(src: &[u8; 189], from: usize, to: usize) -> (r: Vec<u8>)
    requires
        from <= to <= 189,
    ensures
        r@ == src@.subrange(from as int, to as int),
{
    let mut out: Vec<u8> = Vec::new();
    let mut i: usize = from;
    while i < to
        invariant
            from <= i <= to <= 189,
            src@.len() == 189,
            out@ == src@.subrange(from as int, i as int),
        decreases to - i,
    {
        out.push(src[i]);
        i = i + 1;
        assert(out@ =~= src@.subrange(from as int, i as int));
    }
    out
}

/// Decrypts a seed with a 64-byte digest: byte `i` of the seed xor byte
/// `i mod 64` of the digest.
pub fn decrypt_seed_bytes(seed: &[u8], key_hash: &[u8]) -> (r: Vec<u8>)
    requires
        key_hash@.len() == 64,
    ensures
        r@ == decrypted(seed@, key_hash@),
{
    let mut out: Vec<u8> = Vec::new();
    let mut i: usize = 0;
    while i < seed.len()
        invariant
            key_hash@.len() == 64,
            i <= seed@.len(),
            out@ =~= decrypted(seed@, key_hash@).subrange(0, i as int),
        decreases seed@.len() - i,
    {
        proof {
            assert(i & 63 == i % 64) by (bit_vector);
        }
        out.push(seed[i] ^ key_hash[i & 63]);
        i = i + 1;
        assert(out@ =~= decrypted(seed@, key_hash@).subrange(0, i as int));
    }
    assert(decrypted(seed@, key_hash@).subrange(0, i as int) =~= decrypted(seed@, key_hash@));
    out
}

} // verus!
