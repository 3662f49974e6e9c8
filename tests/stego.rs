use nanodb::stego::{
    bits_to_bytes, bytes_to_bits, bytes_to_i32, combine_length_and_bytes,
    get_encoded_data_length, hide_bytes, i32_to_bytes, read_hidden_bytes, PngStegoError,
    StegoImage,
};

fn blank_image(width: u32, height: u32) -> StegoImage {
    StegoImage { width, height, components: vec![0; (width * height * 3) as usize] }
}

#[test]
fn mod_combine_length_combines_correctly() {
    let bytes = vec![1, 2, 3, 4];
    let combined = combine_length_and_bytes(bytes).unwrap();

    assert_eq!(combined, vec![4, 0, 0, 0, 1, 2, 3, 4])
}

#[test]
fn lib_combine_length_combines_correctly() {
    let bytes = vec![1, 2, 3, 4];
    let combined = combine_length_and_bytes(bytes).unwrap();

    assert_eq!(combined, vec![4, 0, 0, 0, 1, 2, 3, 4])
}

fn cannot_fit_case() {
    let width = 10;
    let height = 10;
    let max_bits: usize = width * height * 3; // 100 pixels in image, 3 bits per pix

    let mock_img = blank_image(width as u32, height as u32);
    let big_data = vec![0; max_bits + 8];

    assert_eq!(big_data.len(), max_bits + 8);

    let result = hide_bytes(mock_img, big_data).expect_err("Expected error!");

    assert!(matches!(result, PngStegoError::BufferBiggerThanImage))
}

#[test]
fn mod_hide_bytes_returns_error_when_cannot_fit_into_image() {
    cannot_fit_case();
}

#[test]
fn lib_hide_bytes_returns_error_when_cannot_fit_into_image() {
    cannot_fit_case();
}

fn modifies_case() {
    let mut mock_img = blank_image(10, 10);
    let pixel = [1u8, 2, 3];
    mock_img.components[0..3].copy_from_slice(&pixel);

    let bytes_to_hide = vec![1, 2];

    let updated_image = hide_bytes(mock_img, bytes_to_hide).unwrap();
    let updated_pixel = &updated_image.components[0..3];

    assert_ne!(&pixel[..], updated_pixel)
}

#[test]
fn mod_encode_bytes_in_image_modifies_image() {
    modifies_case();
}

#[test]
fn lib_encode_bytes_in_image_modifies_image() {
    modifies_case();
}

#[test]
fn encoded_data_can_be_decoded() {
    let mock_img = blank_image(10, 10);
    let bytes_to_hide = 0xDEADBEEFu32.to_le_bytes();

    let img_with_data = hide_bytes(mock_img, bytes_to_hide.into()).unwrap();
    let decoded_bytes = read_hidden_bytes(&img_with_data).unwrap();

    let arr: [u8; 4] = decoded_bytes.try_into().unwrap();
    assert_eq!(u32::from_le_bytes(arr), 0xDEADBEEF)
}

#[test]
fn i32_to_bytes_endianness_is_correct() {
    let bytes = i32_to_bytes(1000);
    assert_eq!(bytes, vec![232, 3, 0, 0])
}

#[test]
fn bytes_to_i32_endianness_is_correct() {
    let i32 = bytes_to_i32(vec![111, 23, 0, 0]).unwrap();
    assert_eq!(i32, 5999);
    assert_eq!(bytes_to_i32(vec![1, 2]), Err(PngStegoError::IoError));
}

#[test]
fn bit_conversion_same_as_in_prev_version() {
    let expected = vec![
        true, false, false, false, false, false, false, false, false, true, false, false, false,
        false, false, false,
    ];
    let bytes = vec![1, 2];
    let bits = bytes_to_bits(&bytes);

    assert_eq!(expected, bits);
    assert_eq!(bits_to_bytes(bits), bytes);
    assert_eq!(bits_to_bytes(vec![true, true, false]), vec![3]);
}

#[test]
fn payload_filling_the_image_exactly_round_trips() {
    // 10 x 10 pixels hold 300 bits: the 32-bit prefix and 33 bytes.
    let payload: Vec<u8> = (0..33).map(|i| (i * 37 + 11) as u8).collect();
    let img = hide_bytes(blank_image(10, 10), payload.clone()).unwrap();
    assert_eq!(read_hidden_bytes(&img).unwrap(), payload);
    assert_eq!(
        hide_bytes(blank_image(10, 10), vec![0; 34]).unwrap_err(),
        PngStegoError::BufferBiggerThanImage
    );
}

#[test]
fn hiding_sets_low_bits_only() {
    let mut img = blank_image(4, 4);
    for c in img.components.iter_mut() {
        *c = 0xf0;
    }
    let out = hide_bytes(img, vec![0xff]).unwrap();
    // length 1: first component carries bit 1, the next 31 carry 0
    assert_eq!(out.components[0], 0xf1);
    assert_eq!(out.components[1], 0xf0);
    assert!(out.components[32..40].iter().all(|c| *c == 0xf1));
    assert_eq!(out.components[40], 0xf0);
}

#[test]
fn reading_small_or_inconsistent_images_fails() {
    assert_eq!(get_encoded_data_length(&[0; 31]), Err(PngStegoError::IoError));
    assert_eq!(read_hidden_bytes(&blank_image(2, 2)), Err(PngStegoError::IoError));
    let mut claims_too_much = blank_image(4, 4);
    claims_too_much.components[4] = 1; // length 16, but only 16 bits follow
    assert_eq!(
        read_hidden_bytes(&claims_too_much),
        Err(PngStegoError::BufferBiggerThanImage)
    );
    let mut negative = blank_image(4, 4);
    negative.components[31] = 1;
    assert_eq!(read_hidden_bytes(&negative), Err(PngStegoError::BufferTooBig));
}
