use nanodb::chunk::{chunk_index_to_name, chunk_name_to_index, Chunk};
use nanodb::hex::{byte_array_to_hex_string, hex_string_to_byte_array, HexError};
use nanodb::post::{Post, PostMessage};

#[test]
fn byte_array_to_hex_string_converts_correctly() {
    let expected_result = "06fdfeff";
    let input = vec![6, 253, 254, 255];

    assert_eq!(byte_array_to_hex_string(&input), expected_result)
}

#[test]
fn hex_string_to_byte_array_converts_correctly() {
    let expected_result: [u8; 4] = [1, 254, 78, 93];
    let input = "01fe4e5d";

    assert_eq!(hex_string_to_byte_array(&input).unwrap(), expected_result)
}

#[test]
fn hex_decoding_accepts_upper_case_and_empty_input() {
    assert_eq!(hex_string_to_byte_array("0AfF").unwrap(), vec![10, 255]);
    assert_eq!(hex_string_to_byte_array("").unwrap(), Vec::<u8>::new());
    assert_eq!(byte_array_to_hex_string(&[]), "");
}

#[test]
fn hex_decoding_rejects_odd_length() {
    assert_eq!(hex_string_to_byte_array("abc"), Err(HexError::OddLength));
}

#[test]
fn hex_decoding_rejects_non_hex_digits() {
    assert_eq!(hex_string_to_byte_array("0g"), Err(HexError::InvalidDigit));
    assert_eq!(hex_string_to_byte_array("+f"), Err(HexError::InvalidDigit));
}

#[test]
fn hex_round_trip() {
    let bytes: Vec<u8> = (0..=255).collect();
    let text = byte_array_to_hex_string(&bytes);
    assert_eq!(text.len(), 512);
    assert_eq!(hex_string_to_byte_array(&text).unwrap(), bytes);
}

#[test]
fn chunk_names_round_trip() {
    assert_eq!(chunk_index_to_name(0), "0.db3");
    assert_eq!(chunk_index_to_name(1234), "1234.db3");
    assert_eq!(Chunk::index_to_name(u64::MAX), "18446744073709551615.db3");
    assert_eq!(chunk_name_to_index("1234.db3".to_string()), Some(1234));
    assert_eq!(
        Chunk::name_to_index("18446744073709551615.db3".to_string()),
        Some(u64::MAX)
    );
}

#[test]
fn malformed_chunk_names_are_rejected() {
    assert_eq!(chunk_name_to_index("18446744073709551616.db3".to_string()), None);
    assert_eq!(chunk_name_to_index(".db3".to_string()), None);
    assert_eq!(chunk_name_to_index("12.db4".to_string()), None);
    assert_eq!(chunk_name_to_index("1a.db3".to_string()), None);
    assert_eq!(chunk_name_to_index("12".to_string()), None);
}

#[test]
fn post_message_is_base64_of_the_raw_text() {
    let message = PostMessage::new("test".to_string());
    assert_eq!(message.as_str(), "dGVzdA==");
    assert_eq!(message.get_bytes(), b"test".to_vec());

    let post = Post::new("1".to_string(), "0".to_string(), "message".to_string());
    assert_eq!(post.message.as_str(), "bWVzc2FnZQ==");
    assert_eq!(post.get_message_bytes(), b"message".to_vec());
}

#[test]
fn post_message_from_bytes_checks_utf8() {
    let message = PostMessage::from_bytes(b"test".to_vec()).unwrap();
    assert_eq!(message, PostMessage::new("test".to_string()));
    assert!(PostMessage::from_bytes(vec![0xff, 0xfe]).is_none());
}
