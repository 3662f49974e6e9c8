use vstd::prelude::*;
use vstd::string::*;
use vstd::utf8::*;

verus! {

/// Standard base64 text of a byte string, as the base64 crate writes it.
pub uninterp spec fn base64_of(bytes: Seq<u8>) -> Seq<char>;

/// The bytes that base64 text spells, or `None` where it is no valid base64.
pub uninterp spec fn bytes_of_base64(text: Seq<char>) -> Option<Seq<u8>>;

/// Relies on `base64::encode` (standard alphabet, padded): the text depends on
/// the bytes alone, and `base64::decode` reads it back to the same bytes.
#[verifier::external_body]
fn base64_encode(bytes: &[u8]) -> (r: String)
    ensures
        r@ == base64_of(bytes@),
        bytes_of_base64(r@) == Some(bytes@),
{
    base64::encode(bytes)
}

/// Relies on `base64::decode`: it fails on text that is no valid base64 and
/// otherwise returns the bytes the text spells.
#[verifier::external_body]
fn base64_decode(text: &str) -> (r: Option<Vec<u8>>)
    ensures
        r is Some <==> bytes_of_base64(text@) is Some,
        r matches Some(v) ==> Some(v@) == bytes_of_base64(text@),
{
    base64::decode(text).ok()
}

/// Relies on `String::from_utf8`: it accepts exactly the valid UTF-8 byte
/// strings and keeps their characters.
#[verifier::external_body]
fn string_from_utf8(bytes: Vec<u8>) -> (r: Option<String>)
    ensures
        r is Some <==> valid_utf8(bytes@),
        r matches Some(s) ==> s@ == decode_utf8(bytes@),
{
    String::from_utf8(bytes).ok()
}

/// A post as the board hands it in and out.
#[derive(Debug, Clone, PartialEq, Eq)]
pub struct Post {
    pub hash: String,
    pub reply_to: String,
    /// Base64 encoded post message
    pub message: PostMessage,
}

/// A post message, held base64-encoded.
#[derive(Debug, PartialEq, Eq, Hash)]
pub struct PostMessage(String);

impl Clone for PostMessage {
    fn clone(&self) -> (r: Self)
        ensures
            r@ == self@,
    {
        proof {
            use_type_invariant(self);
        }
        PostMessage(self.0.clone())
    }
}

impl View for PostMessage {
    type V = Seq<char>;

    /// The base64 text.
    closed spec fn view(&self) -> Seq<char> {
        self.0@
    }
}

/// The bytes that a message stands for.
pub open spec fn message_bytes(m: Seq<char>) -> Seq<u8> {
    bytes_of_base64(m)->0
}

impl PostMessage {
    #[verifier::type_invariant]
    spec fn inv(&self) -> bool {
        exists|b: Seq<u8>|
            #![trigger base64_of(b)]
            self.0@ == base64_of(b) && bytes_of_base64(self.0@) == Some(b) && valid_utf8(b)
    }

    /// Encodes the UTF-8 bytes of `raw_message`.
    pub fn new(raw_message: String) -> (r: Self)
        ensures
            r@ == base64_of(encode_utf8(raw_message@)),
            message_bytes(r@) == encode_utf8(raw_message@),
    {
        let encoded = base64_encode(raw_message.as_str().as_bytes());
        proof {
            encode_utf8_valid_utf8(raw_message@);
        }
        PostMessage(encoded)
    }

    /// The message whose bytes are `bytes`; `None` where they are no valid UTF-8.
    pub fn from_bytes(bytes: Vec<u8>) -> (r: Option<Self>)
        ensures
            r is Some <==> valid_utf8(bytes@),
            r matches Some(m) ==> m@ == base64_of(bytes@) && message_bytes(m@) == bytes@,
    {
        let ghost b = bytes@;
        match string_from_utf8(bytes) {
            Some(utf8) => {
                proof {
                    decode_utf8_encode_utf8(b);
                }
                Some(Self::new(utf8))
            },
            None => None,
        }
    }

    /// The bytes that the message stands for.
    pub fn get_bytes(&self) -> (r: Vec<u8>)
        ensures
            r@ == message_bytes(self@),
            base64_of(r@) == self@,
            valid_utf8(r@),
    {
        proof {
            use_type_invariant(self);
        }
        match base64_decode(self.0.as_str()) {
            Some(v) => v,
            None => Vec::new(),
        }
    }

    /// The base64 text.
    pub fn as_str(&self) -> (r: &str)
        ensures
            r@ == self@,
    {
        self.0.as_str()
    }
}

impl Post {
    pub fn new(hash: String, reply_to: String, raw_message: String) -> (r: Self)
        ensures
            r.hash@ == hash@,
            r.reply_to@ == reply_to@,
            r.message@ == base64_of(encode_utf8(raw_message@)),
            message_bytes(r.message@) == encode_utf8(raw_message@),
    {
        Post { hash, reply_to, message: PostMessage::new(raw_message) }
    }

    pub fn get_message_bytes(&self) -> (r: Vec<u8>)
        ensures
            r@ == message_bytes(self.message@),
            base64_of(r@) == self.message@,
            valid_utf8(r@),
    {
        self.message.get_bytes()
    }
}

} // verus!
