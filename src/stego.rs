use vstd::prelude::*;

verus! {

/// Bits of pixel data that one byte of payload takes.
pub const BITS_IN_BYTES: usize = 8;

/// Pixel components that hold the payload length.
pub const LENGTH_BITS: usize = 32;

#[derive(Debug, Clone, Copy, PartialEq, Eq)]
pub enum PngStegoError {
    /// The payload is too long for its length to be written, or the length
    /// read back is negative.
    BufferTooBig,
    /// Fewer components than the length prefix needs.
    IoError,
    /// The data does not fit into the image.
    BufferBiggerThanImage,
}

/// An RGB image as its component bytes, row-major, three per pixel.
#[derive(Debug, Clone, PartialEq, Eq)]
pub struct StegoImage {
    pub width: u32,
    pub height: u32,
    pub components: Vec<u8>,
}

impl StegoImage {
    pub open spec fn wf(&self) -> bool {
        self.components@.len() == 3 * (self.width as int) * (self.height as int)
    }
}

/// Bit `i` of a byte string, least significant bit of each byte first.
pub open spec fn bit_of(bytes: Seq<u8>, i: int) -> bool {
    (bytes[i / 8] >> ((i % 8) as u8)) & 1 == 1
}

pub open spec fn bits_of(bytes: Seq<u8>) -> Seq<bool> {
    Seq::new(8 * bytes.len(), |i: int| bit_of(bytes, i))
}

pub open spec fn bit_at(bits: Seq<bool>, i: int) -> u8 {
    if 0 <= i < bits.len() && bits[i] {
        1
    } else {
        0
    }
}

/// The byte whose bits, least significant first, are `bits[s..s + 8]`
/// (bits past the end count as 0).
#[verifier::opaque]
pub open spec fn byte_of_bits(bits: Seq<bool>, s: int) -> u8 {
    bit_at(bits, s) | (bit_at(bits, s + 1) << 1u8) | (bit_at(bits, s + 2) << 2u8) | (bit_at(
        bits,
        s + 3,
    ) << 3u8) | (bit_at(bits, s + 4) << 4u8) | (bit_at(bits, s + 5) << 5u8) | (bit_at(bits, s + 6)
        << 6u8) | (bit_at(bits, s + 7) << 7u8)
}

/// Bits packed into bytes, least significant first; a short last group
/// makes a last byte of its own.
pub open spec fn bytes_of_bits(bits: Seq<bool>) -> Seq<u8> {
    Seq::new((bits.len() + 7) / 8, |k: int| byte_of_bits(bits, 8 * k))
}

/// Four bytes of `v`, least significant first.
#[verifier::opaque]
pub open spec fn le_bytes(v: u32) -> Seq<u8> {
    seq![(v & 0xff) as u8, ((v >> 8u32) & 0xff) as u8, ((v >> 16u32) & 0xff) as u8, ((v >> 24u32) & 0xff) as u8]
}

/// The number that four bytes spell, least significant first.
#[verifier::opaque]
pub open spec fn le_value(b: Seq<u8>) -> u32 {
    (b[0] as u32) | ((b[1] as u32) << 8u32) | ((b[2] as u32) << 16u32) | ((b[3] as u32) << 24u32)
}

/// The payload with its length in front, as four little-endian bytes.
pub open spec fn framed(bytes: Seq<u8>) -> Seq<u8> {
    le_bytes(bytes.len() as u32) + bytes
}

/// A component with its lowest bit set to `b`.
pub open spec fn with_bit(c: u8, b: bool) -> u8 {
    (c - c % 2 + if b {
        1int
    } else {
        0int
    }) as u8
}

/// Components with the bits of `data` written into their lowest bits, one
/// bit per component, from the first on.
#[verifier::opaque]
pub open spec fn hidden(components: Seq<u8>, data: Seq<u8>) -> Seq<u8> {
    Seq::new(
        components.len(),
        |i: int|
            if i < 8 * data.len() {
                with_bit(components[i], bit_of(data, i))
            } else {
                components[i]
            },
    )
}

/// The lowest bits of the components from `start` on, `n` of them.
pub open spec fn low_bits(components: Seq<u8>, start: int, n: int) -> Seq<bool> {
    Seq::new(n as nat, |i: int| components[start + i] % 2 == 1)
}

/// The payload length that the first 32 components hold.
pub open spec fn encoded_length(components: Seq<u8>) -> i32 {
    le_value(bytes_of_bits(low_bits(components, 0, 32))) as i32
}

/// What reading hidden bytes out of `components` gives.
pub open spec fn hidden_payload(components: Seq<u8>) -> Result<Seq<u8>, PngStegoError> {
    if components.len() < 32 {
        Err(PngStegoError::IoError)
    } else if encoded_length(components) < 0 {
        Err(PngStegoError::BufferTooBig)
    } else if 32 + 8 * (encoded_length(components) as int) > components.len() {
        Err(PngStegoError::BufferBiggerThanImage)
    } else {
        Ok(bytes_of_bits(low_bits(components, 32, 8 * encoded_length(components) as int)))
    }
}

/// Writes `val` as four bytes, least significant first.
pub fn i32_to_bytes(val: i32) -> (r: Vec<u8>)
    ensures
        r@ == le_bytes(val as u32),
{
    let v = val as u32;
    reveal(le_bytes);
    let mut out: Vec<u8> = Vec::new();
    out.push((v & 0xff) as u8);
    out.push(((v >> 8u32) & 0xff) as u8);
    out.push(((v >> 16u32) & 0xff) as u8);
    out.push(((v >> 24u32) & 0xff) as u8);
    assert(out@ =~= le_bytes(v));
    out
}

/// Reads four bytes, least significant first, as an `i32`.
pub fn bytes_to_i32(val: Vec<u8>) -> (r: Result<i32, PngStegoError>)
    ensures
        val@.len() < 4 ==> r == Err::<i32, PngStegoError>(PngStegoError::IoError),
        val@.len() >= 4 ==> r == Ok::<i32, PngStegoError>(le_value(val@) as i32),
{
    if val.len() < 4 {
        return Err(PngStegoError::IoError);
    }
    reveal(le_value);
    let v = (val[0] as u32) | ((val[1] as u32) << 8u32) | ((val[2] as u32) << 16u32) | ((
    val[3] as u32) << 24u32);
    Ok(v as i32)
}

/// The bits of `bytes`, least significant bit of each byte first.
pub fn bytes_to_bits(bytes: &[u8]) -> (r: Vec<bool>)
    requires
        8 * bytes@.len() <= usize::MAX,
    ensures
        r@ == bits_of(bytes@),
{
    let mut out: Vec<bool> = Vec::new();
    let mut i: usize = 0;
    while i < bytes.len() * 8
        invariant
            8 * bytes@.len() <= usize::MAX,
            i <= 8 * bytes@.len(),
            out@ =~= bits_of(bytes@).subrange(0, i as int),
        decreases 8 * bytes@.len() - i,
    {
        let b = bytes[i / 8];
        let shift = (i % 8) as u8;
        out.push((b >> shift) & 1 == 1);
        i = i + 1;
        assert(out@ =~= bits_of(bytes@).subrange(0, i as int));
    }
    assert(bits_of(bytes@).subrange(0, i as int) =~= bits_of(bytes@));
    out
}

fn bit_value(bits: &Vec<bool>, i: usize) -> (r: u8)
    ensures
        r == bit_at(bits@, i as int),
{
    if i < bits.len() && bits[i] {
        1
    } else {
        0
    }
}

/// Packs bits into bytes, least significant first; a short last group makes
/// a last byte of its own.
pub fn bits_to_bytes(bits: Vec<bool>) -> (r: Vec<u8>)
    ensures
        r@ == bytes_of_bits(bits@),
{
    let n = bits.len();
    let count = n / 8 + if n % 8 == 0 {
        0
    } else {
        1
    };
    assert(count == (n + 7) / 8);
    reveal(byte_of_bits);
    let mut out: Vec<u8> = Vec::new();
    let mut k: usize = 0;
    while k < count
        invariant
            n == bits@.len(),
            count == (n + 7) / 8,
            k <= count,
            out@ =~= bytes_of_bits(bits@).subrange(0, k as int),
        decreases count - k,
    {
        let s = 8 * k;
        let b = bit_value(&bits, s) | (bit_value(&bits, s + 1) << 1u8) | (bit_value(&bits, s + 2)
            << 2u8) | (bit_value(&bits, s + 3) << 3u8) | (bit_value(&bits, s + 4) << 4u8) | (
        bit_value(&bits, s + 5) << 5u8) | (bit_value(&bits, s + 6) << 6u8) | (bit_value(
            &bits,
            s + 7,
        ) << 7u8);
        out.push(b);
        k = k + 1;
        proof {
            reveal(byte_of_bits);
        }
        assert(out@ =~= bytes_of_bits(bits@).subrange(0, k as int));
    }
    assert(bytes_of_bits(bits@).subrange(0, k as int) =~= bytes_of_bits(bits@));
    out
}

/// Puts the payload's length, as four little-endian bytes, in front of it.
/// Fails with `BufferTooBig` where the length does not fit in an `i32`.
pub fn combine_length_and_bytes(bytes: Vec<u8>) -> (r: Result<Vec<u8>, PngStegoError>)
    ensures
        bytes@.len() > i32::MAX ==> r == Err::<Vec<u8>, PngStegoError>(PngStegoError::BufferTooBig),
        bytes@.len() <= i32::MAX ==> (r matches Ok(v) && v@ == framed(bytes@)),
{
    if bytes.len() > 2147483647 {
        return Err(PngStegoError::BufferTooBig);
    }
    let data_length = bytes.len() as i32;
    let mut combined = i32_to_bytes(data_length);
    let mut i: usize = 0;
    while i < bytes.len()
        invariant
            bytes@.len() <= i32::MAX,
            i <= bytes@.len(),
            combined@ =~= le_bytes(bytes@.len() as u32) + bytes@.subrange(0, i as int),
        decreases bytes@.len() - i,
    {
        combined.push(bytes[i]);
        i = i + 1;
        assert(combined@ =~= le_bytes(bytes@.len() as u32) + bytes@.subrange(0, i as int));
    }
    assert(bytes@.subrange(0, i as int) =~= bytes@);
    Ok(combined)
}

/// Whether a pixel component carries a 1 bit.
pub fn pixel_component_to_bit(component: u8) -> (r: bool)
    ensures
        r == (component % 2 == 1),
{
    component % 2 == 1
}

fn low_bits_of(pixels: &[u8], start: usize, n: usize) -> (r: Vec<bool>)
    requires
        start + n <= pixels@.len(),
    ensures
        r@ == low_bits(pixels@, start as int, n as int),
{
    let mut out: Vec<bool> = Vec::new();
    let mut i: usize = 0;
    assert(pixels@.len() == pixels.len());
    while i < n
        invariant
            start + n <= pixels@.len(),
            pixels@.len() <= usize::MAX,
            i <= n,
            out@ =~= low_bits(pixels@, start as int, i as int),
        decreases n - i,
    {
        out.push(pixel_component_to_bit(pixels[start + i]));
        i = i + 1;
        assert(out@ =~= low_bits(pixels@, start as int, i as int));
    }
    out
}

/// The payload length that the first 32 components hold.
pub fn get_encoded_data_length(pixels: &[u8]) -> (r: Result<i32, PngStegoError>)
    ensures
        pixels@.len() < 32 ==> r == Err::<i32, PngStegoError>(PngStegoError::IoError),
        pixels@.len() >= 32 ==> r == Ok::<i32, PngStegoError>(encoded_length(pixels@)),
{
    if pixels.len() < LENGTH_BITS {
        return Err(PngStegoError::IoError);
    }
    let length_bits = low_bits_of(pixels, 0, LENGTH_BITS);
    let length_bytes = bits_to_bytes(length_bits);
    bytes_to_i32(length_bytes)
}

/// Hides `bytes` in the lowest bits of the image's components: first their
/// length as four little-endian bytes, then the bytes, least significant bit
/// first. Fails with `BufferBiggerThanImage` where that takes more bits than
/// the image has components.
pub fn hide_bytes(img: StegoImage, bytes: Vec<u8>) -> (r: Result<StegoImage, PngStegoError>)
    ensures
        8 * (bytes@.len() + 4) > img.components@.len() ==> r == Err::<StegoImage, PngStegoError>(
            PngStegoError::BufferBiggerThanImage,
        ),
        8 * (bytes@.len() + 4) <= img.components@.len() && bytes@.len() > i32::MAX ==> r == Err::<
            StegoImage,
            PngStegoError,
        >(PngStegoError::BufferTooBig),
        8 * (bytes@.len() + 4) <= img.components@.len() && bytes@.len() <= i32::MAX ==> (r matches Ok(out) && out.width
            == img.width && out.height == img.height && out.components@ == hidden(
            img.components@,
            framed(bytes@),
        )),
{
    let max_size = img.components.len();
    if bytes.len() > (max_size / 8) || max_size / 8 - bytes.len() < 4 {
        assert(8 * (bytes@.len() + 4) > max_size) by (nonlinear_arith)
            requires
                bytes@.len() > (max_size / 8) || max_size / 8 - bytes@.len() < 4,
        ;
        return Err(PngStegoError::BufferBiggerThanImage);
    }
    assert(8 * (bytes@.len() + 4) <= max_size) by (nonlinear_arith)
        requires
            bytes@.len() + 4 <= max_size / 8,
    ;
    let combined = match combine_length_and_bytes(bytes) {
        Ok(c) => c,
        Err(e) => {
            return Err(e);
        },
    };
    proof {
        reveal(le_bytes);
    }
    let bits = bytes_to_bits(combined.as_slice());
    let ghost w0 = img.width;
    let ghost h0 = img.height;
    let mut img = img;
    let ghost orig = img.components@;
    let mut i: usize = 0;
    while i < bits.len()
        invariant
            bits@ == bits_of(combined@),
            img.width == w0,
            img.height == h0,
            bits@.len() <= orig.len(),
            img.components@.len() == orig.len(),
            i <= bits@.len(),
            forall|j: int| 0 <= j < i ==> img.components@[j] == #[trigger] hidden(orig, combined@)[j],
            forall|j: int| i <= j < orig.len() ==> img.components@[j] == orig[j],
        decreases bits@.len() - i,
    {
        let pixel = img.components[i];
        let even = pixel - pixel % 2;
        assert(even <= 254);
        let v = even + if bits[i] {
            1u8
        } else {
            0u8
        };
        proof {
            reveal(hidden);
        }
        assert(v == with_bit(orig[i as int], bit_of(combined@, i as int)));
        assert(hidden(orig, combined@)[i as int] == v);
        img.components.set(i, v);
        i = i + 1;
    }
    proof {
        reveal(hidden);
    }
    assert(img.components@ =~= hidden(orig, combined@));
    Ok(img)
}

/// Reads the bytes hidden by `hide_bytes`. Fails where the image is too small
/// for the length prefix (`IoError`), where the length is negative
/// (`BufferTooBig`), or where the image holds fewer bits than the length
/// claims (`BufferBiggerThanImage`).
pub fn read_hidden_bytes(encoded_img: &StegoImage) -> (r: Result<Vec<u8>, PngStegoError>)
    ensures
        match hidden_payload(encoded_img.components@) {
            Ok(v) => r matches Ok(out) && out@ == v,
            Err(e) => r == Err::<Vec<u8>, PngStegoError>(e),
        },
{
    let pixels = encoded_img.components.as_slice();
    let encoded_data_length = match get_encoded_data_length(pixels) {
        Ok(l) => l,
        Err(e) => {
            return Err(e);
        },
    };
    if encoded_data_length < 0 {
        return Err(PngStegoError::BufferTooBig);
    }
    let len = encoded_data_length as usize;
    assert(len as int == encoded_length(pixels@) as int);
    if (pixels.len() - LENGTH_BITS) / 8 < len {
        assert(32 + 8 * (encoded_length(pixels@) as int) > pixels@.len());
        return Err(PngStegoError::BufferBiggerThanImage);
    }
    assert(32 + 8 * (encoded_length(pixels@) as int) <= pixels@.len());
    let bits = low_bits_of(pixels, LENGTH_BITS, len * 8);
    let out = bits_to_bytes(bits);
    assert(out@ == bytes_of_bits(low_bits(pixels@, 32, 8 * encoded_length(pixels@) as int)));
    Ok(out)
}

proof fn lemma_low_bit(y: u8)
    ensures
        (y & 1) == 0 || (y & 1) == 1,
{
    assert((y & 1) == 0 || (y & 1) == 1) by (bit_vector);
}

proof fn lemma_byte_bits(x: u8)
    ensures
        ((x >> 0u8) & 1) | (((x >> 1u8) & 1) << 1u8) | (((x >> 2u8) & 1) << 2u8) | (((x >> 3u8) & 1)
            << 3u8) | (((x >> 4u8) & 1) << 4u8) | (((x >> 5u8) & 1) << 5u8) | (((x >> 6u8) & 1)
            << 6u8) | (((x >> 7u8) & 1) << 7u8) == x,
{
    assert(((x >> 0u8) & 1) | (((x >> 1u8) & 1) << 1u8) | (((x >> 2u8) & 1) << 2u8) | (((x >> 3u8)
        & 1) << 3u8) | (((x >> 4u8) & 1) << 4u8) | (((x >> 5u8) & 1) << 5u8) | (((x >> 6u8) & 1)
        << 6u8) | (((x >> 7u8) & 1) << 7u8) == x) by (bit_vector);
}

/// Eight bits that spell `x`, least significant first, pack back into `x`.
proof fn lemma_byte_from_bits(bits: Seq<bool>, s: int, x: u8)
    requires
        0 <= s,
        s + 8 <= bits.len(),
        forall|j: int| 0 <= j < 8 ==> #[trigger] bits[s + j] == ((x >> (j as u8)) & 1 == 1),
    ensures
        byte_of_bits(bits, s) == x,
{
    assert forall|j: int| 0 <= j < 8 implies #[trigger] bit_at(bits, s + j) == (x >> (j as u8)) & 1 by {
        lemma_low_bit(x >> (j as u8));
    }
    reveal(byte_of_bits);
    assert(bit_at(bits, s + 0) == (x >> 0u8) & 1);
    assert(bit_at(bits, s + 1) == (x >> 1u8) & 1);
    assert(bit_at(bits, s + 2) == (x >> 2u8) & 1);
    assert(bit_at(bits, s + 3) == (x >> 3u8) & 1);
    assert(bit_at(bits, s + 4) == (x >> 4u8) & 1);
    assert(bit_at(bits, s + 5) == (x >> 5u8) & 1);
    assert(bit_at(bits, s + 6) == (x >> 6u8) & 1);
    assert(bit_at(bits, s + 7) == (x >> 7u8) & 1);
    lemma_byte_bits(x);
}

proof fn lemma_le_round_trip(v: u32)
    ensures
        le_value(le_bytes(v)) == v,
{
    reveal(le_bytes);
    reveal(le_value);
    let b = le_bytes(v);
    assert((v & 0xff) < 256 && ((v >> 8u32) & 0xff) < 256 && ((v >> 16u32) & 0xff) < 256 && ((v
        >> 24u32) & 0xff) < 256) by (bit_vector);
    assert(b[0] as u32 == v & 0xff);
    assert(b[1] as u32 == (v >> 8u32) & 0xff);
    assert(b[2] as u32 == (v >> 16u32) & 0xff);
    assert(b[3] as u32 == (v >> 24u32) & 0xff);
    assert((v & 0xff) | (((v >> 8u32) & 0xff) << 8u32) | (((v >> 16u32) & 0xff) << 16u32) | (((v
        >> 24u32) & 0xff) << 24u32) == v) by (bit_vector);
}

/// The bytes of `data` come back from the lowest bits of the components that
/// hold them.
proof fn lemma_bytes_from_hidden(c: Seq<u8>, data: Seq<u8>, start: int, n: int)
    requires
        8 * data.len() <= c.len(),
        0 <= start,
        start % 8 == 0,
        0 <= n,
        start + 8 * n <= 8 * data.len(),
    ensures
        bytes_of_bits(low_bits(hidden(c, data), start, 8 * n)) == data.subrange(
            start / 8,
            start / 8 + n,
        ),
{
    reveal(hidden);
    let h = hidden(c, data);
    let bits = low_bits(h, start, 8 * n);
    assert forall|i: int| 0 <= i < 8 * n implies bits[i] == bit_of(data, start + i) by {
        let k = start + i;
        assert(h[k] == with_bit(c[k], bit_of(data, k)));
    }
    assert forall|k: int| 0 <= k < n implies #[trigger] byte_of_bits(bits, 8 * k) == data[start / 8 + k] by {
        assert forall|j: int| 0 <= j < 8 implies #[trigger] bits[8 * k + j] == ((data[start / 8 + k] >> (
        j as u8)) & 1 == 1) by {
            assert((start + 8 * k + j) / 8 == start / 8 + k);
            assert((start + 8 * k + j) % 8 == j);
        }
        lemma_byte_from_bits(bits, 8 * k, data[start / 8 + k]);
    }
    assert(bytes_of_bits(bits) =~= data.subrange(start / 8, start / 8 + n));
}

/// Bytes hidden in an image that has room for them and their length prefix
/// read back unchanged.
pub proof fn lemma_hide_read_round_trip(components: Seq<u8>, bytes: Seq<u8>)
    requires
        8 * (bytes.len() + 4) <= components.len(),
        bytes.len() <= i32::MAX,
    ensures
        hidden_payload(hidden(components, framed(bytes))) == Ok::<Seq<u8>, PngStegoError>(bytes),
{
    let n = bytes.len() as int;
    let d = framed(bytes);
    assert(d.len() == n + 4) by {
        reveal(le_bytes);
    }
    let h = hidden(components, d);
    assert(h.len() == components.len()) by {
        reveal(hidden);
    }
    let len_bits = low_bits(h, 0, 32);
    let data_bits = low_bits(h, 32, 8 * n);
    assert(bytes_of_bits(len_bits) == le_bytes(n as u32)) by {
        lemma_bytes_from_hidden(components, d, 0, 4);
        assert(d.subrange(0, 4) =~= le_bytes(n as u32));
    }
    assert(encoded_length(h) == n as i32) by {
        lemma_le_round_trip(n as u32);
    }
    assert(bytes_of_bits(data_bits) == bytes) by {
        lemma_bytes_from_hidden(components, d, 32, n);
        assert(d.subrange(4, 4 + n) =~= bytes);
    }
    assert(hidden_payload(h) == Ok::<Seq<u8>, PngStegoError>(bytes_of_bits(data_bits)));
}

} // verus!
