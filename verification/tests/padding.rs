use bitstream::{Error, LengthPadding, NoPadding, Padding};

#[test]
fn test_no_padding_max_size() {
    assert_eq!(NoPadding::new().max_size(), 0);
    assert_eq!(NoPadding::default().max_size(), 0);
}

#[test]
fn test_no_padding_pad_writes_a_started_byte() {
    let padding = NoPadding::new();
    assert_eq!(padding.pad(0xC0, 2), vec![0xC0]);
    assert_eq!(padding.pad(0x00, 1), vec![0x00]);
    assert_eq!(padding.pad(0xFE, 7), vec![0xFE]);
}

#[test]
fn test_no_padding_pad_writes_nothing_on_a_boundary() {
    let padding = NoPadding::new();
    assert_eq!(padding.pad(0x00, 0), Vec::<u8>::new());
    assert_eq!(padding.pad(0xFF, 0), Vec::<u8>::new());
}

#[test]
fn test_no_padding_bits_left_is_zero() {
    let padding = NoPadding::new();
    assert_eq!(padding.bits_left(&[]), Ok(0));
    assert_eq!(padding.bits_left(&[0xFF]), Ok(0));
    assert_eq!(padding.bits_left(&[0xC0, 0x02]), Ok(0));
}

#[test]
fn test_length_padding_max_size() {
    assert_eq!(LengthPadding::new().max_size(), 2);
    assert_eq!(LengthPadding::default().max_size(), 2);
}

#[test]
fn test_length_padding_pad_writes_byte_and_count() {
    let padding = LengthPadding::new();
    assert_eq!(padding.pad(0xC0, 2), vec![0xC0, 2]);
    assert_eq!(padding.pad(0x80, 1), vec![0x80, 1]);
    assert_eq!(padding.pad(0xFE, 7), vec![0xFE, 7]);
}

#[test]
fn test_length_padding_pad_writes_the_sentinel_on_a_boundary() {
    let padding = LengthPadding::new();
    assert_eq!(padding.pad(0x00, 0), vec![8]);
    assert_eq!(padding.pad(0xFF, 0), vec![8]);
}

#[test]
fn test_length_padding_bits_left_of_two_bytes_is_the_count() {
    let padding = LengthPadding::new();
    assert_eq!(padding.bits_left(&[0xC0, 2]), Ok(2));
    assert_eq!(padding.bits_left(&[0xFF, 8]), Ok(8));
    assert_eq!(padding.bits_left(&[0xFF, 0]), Ok(0));
    assert_eq!(padding.bits_left(&[0x00, 7]), Ok(7));
}

#[test]
fn test_length_padding_bits_left_of_one_byte_is_zero() {
    let padding = LengthPadding::new();
    assert_eq!(padding.bits_left(&[8]), Ok(0));
    assert_eq!(padding.bits_left(&[3]), Ok(0));
    assert_eq!(padding.bits_left(&[0]), Ok(0));
}

#[test]
fn test_length_padding_bits_left_of_nothing_is_zero() {
    assert_eq!(LengthPadding::new().bits_left(&[]), Ok(0));
}

#[test]
fn test_length_padding_bits_left_goes_by_the_last_bytes() {
    let padding = LengthPadding::new();
    assert_eq!(padding.bits_left(&[0x01, 0x02, 0x03]), Ok(3));
    assert_eq!(padding.bits_left(&[0x09, 0xFF, 0xFF, 0x05]), Ok(5));
}

#[test]
fn test_length_padding_bits_left_refuses_a_count_above_eight() {
    let padding = LengthPadding::new();
    assert_eq!(padding.bits_left(&[0xC0, 9]), Err(Error::MalformedTrailer));
    assert_eq!(padding.bits_left(&[0xC0, 255]), Err(Error::MalformedTrailer));
    assert_eq!(padding.bits_left(&[9]), Err(Error::MalformedTrailer));
    assert_eq!(padding.bits_left(&[0, 0, 200]), Err(Error::MalformedTrailer));
}

#[test]
fn test_errors_are_told_apart() {
    assert_ne!(Error::NeedInput, Error::MalformedTrailer);
    let copy = Error::MalformedTrailer;
    assert_eq!(copy, Error::MalformedTrailer);
    assert_eq!(format!("{:?}", Error::NeedInput), "NeedInput");
}
