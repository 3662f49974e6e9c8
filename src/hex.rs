use vstd::prelude::*;

verus! {

/// The lowercase hexadecimal alphabet.
pub open spec fn hex_alphabet() -> Seq<char> {
    seq!['0', '1', '2', '3', '4', '5', '6', '7', '8', '9', 'a', 'b', 'c', 'd', 'e', 'f']
}

/// Two lowercase hex digits per byte, high nibble first.
pub open spec fn hex_of(bytes: Seq<u8>) -> Seq<char> {
    Seq::new(
        2 * bytes.len(),
        |i: int|
            if i % 2 == 0 {
                hex_alphabet()[bytes[i / 2] as int / 16]
            } else {
                hex_alphabet()[bytes[i / 2] as int % 16]
            },
    )
}

/// The value of one hex digit, either case.
pub open spec fn nibble_of(c: char) -> Option<u8> {
    if '0' <= c && c <= '9' {
        Some((c as u32 - '0' as u32) as u8)
    } else if 'a' <= c && c <= 'f' {
        Some((c as u32 - 'a' as u32 + 10) as u8)
    } else if 'A' <= c && c <= 'F' {
        Some((c as u32 - 'A' as u32 + 10) as u8)
    } else {
        None
    }
}

pub open spec fn all_hex_digits(s: Seq<char>) -> bool {
    forall|i: int| 0 <= i < s.len() ==> (#[trigger] nibble_of(s[i])) is Some
}

/// The bytes that a string of hex digit pairs spells.
pub open spec fn bytes_of_hex(s: Seq<char>) -> Seq<u8> {
    Seq::new(
        s.len() / 2,
        |i: int| (nibble_of(s[2 * i])->0 * 16 + nibble_of(s[2 * i + 1])->0) as u8,
    )
}

#[derive(Debug, Clone, Copy, PartialEq, Eq)]
pub enum HexError {
    /// The input holds an unpaired trailing digit.
    OddLength,
    /// The input holds a character that is no hex digit.
    InvalidDigit,
}

/// Lowercase hex text of `input`, two digits per byte.
pub fn byte_array_to_hex_string(input: &[u8]) -> (r: String)
    ensures
        r@ == hex_of(input@),
{
    let digits = "0123456789abcdef";
    proof {
        reveal_strlit("0123456789abcdef");
    }
    assert(digits@ =~= hex_alphabet());
    let mut result = String::new();
    let mut i: usize = 0;
    while i < input.len()
        invariant
            i <= input@.len(),
            digits@ == hex_alphabet(),
            result@ =~= hex_of(input@.subrange(0, i as int)),
        decreases input@.len() - i,
    {
        let b = input[i];
        let hi = (b / 16) as usize;
        let lo = (b % 16) as usize;
        result.append(digits.substring_char(hi, hi + 1));
        result.append(digits.substring_char(lo, lo + 1));
        i = i + 1;
        assert(result@ =~= hex_of(input@.subrange(0, i as int)));
    }
    assert(input@.subrange(0, i as int) =~= input@);
    result
}

fn nibble(c: char) -> (r: Option<u8>)
    ensures
        r == nibble_of(c),
{
    if '0' <= c && c <= '9' {
        Some((c as u32 - '0' as u32) as u8)
    } else if 'a' <= c && c <= 'f' {
        Some((c as u32 - 'a' as u32 + 10) as u8)
    } else if 'A' <= c && c <= 'F' {
        Some((c as u32 - 'A' as u32 + 10) as u8)
    } else {
        None
    }
}

/// Parses pairs of hex digits (either case) into bytes.
pub fn hex_string_to_byte_array(input: &str) -> (r: Result<Vec<u8>, HexError>)
    ensures
        input@.len() % 2 == 1 <==> r == Err::<Vec<u8>, HexError>(HexError::OddLength),
        input@.len() % 2 == 0 && !all_hex_digits(input@) <==> r == Err::<Vec<u8>, HexError>(
            HexError::InvalidDigit,
        ),
        r is Ok <==> input@.len() % 2 == 0 && all_hex_digits(input@),
        r matches Ok(v) ==> v@ == bytes_of_hex(input@),
{
    let n = input.unicode_len();
    if n % 2 == 1 {
        return Err(HexError::OddLength);
    }
    let mut out: Vec<u8> = Vec::new();
    let mut i: usize = 0;
    while i < n
        invariant
            n == input@.len(),
            n % 2 == 0,
            i % 2 == 0,
            i <= n,
            forall|j: int| 0 <= j < i ==> (#[trigger] nibble_of(input@[j])) is Some,
            out@ =~= bytes_of_hex(input@.subrange(0, i as int)),
        decreases n - i,
    {
        let hi = nibble(input.get_char(i));
        let lo = nibble(input.get_char(i + 1));
        match (hi, lo) {
            (Some(h), Some(l)) => {
                proof {
                    assert(h < 16 && l < 16);
                }
                out.push(h * 16 + l);
            },
            _ => {
                assert(!all_hex_digits(input@)) by {
                    if hi is None {
                        assert(nibble_of(input@[i as int]) is None);
                    } else {
                        assert(nibble_of(input@[i + 1]) is None);
                    }
                }
                return Err(HexError::InvalidDigit);
            },
        }
        i = i + 2;
        assert(out@ =~= bytes_of_hex(input@.subrange(0, i as int)));
    }
    assert(input@.subrange(0, i as int) =~= input@);
    Ok(out)
}

} // verus!
