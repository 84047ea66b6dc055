use blurhash::parse;
use blurhash::rgba_pixels;
use blurhash::unpack_ac;
use blurhash::unpack_dc;
use blurhash::validate;
use blurhash::DecodeError;

#[test]
fn validate_accepts_known_hash() {
    assert_eq!(validate("LEHV6nWB2yk8pyo0adR*.7kCMdnj"), Ok(()));
}

#[test]
fn validate_rejects_short_hash_with_length_error() {
    assert_eq!(validate("LLLLL"), Err(DecodeError::LengthError));
    assert_eq!(validate(""), Err(DecodeError::LengthError));
}

#[test]
fn validate_rejects_wrong_length_with_format_error() {
    // size flag '0' declares a 1x1 grid, so the hash must be 6 characters
    assert_eq!(validate("0000000"), Err(DecodeError::FormatError));
    assert_eq!(validate("000000"), Ok(()));
}

#[test]
fn validate_rejects_foreign_size_flag() {
    assert_eq!(validate("!00000"), Err(DecodeError::FormatError));
}

#[test]
fn parse_known_hash_fields() {
    let p = parse("LEHV6nWB2yk8pyo0adR*.7kCMdnj").unwrap();
    assert_eq!(p.num_x, 4);
    assert_eq!(p.num_y, 3);
    assert_eq!(p.questioned_max, 14);
    assert_eq!(p.dc, 9934485);
    assert_eq!(p.ac.len(), 11);
    assert_eq!(unpack_dc(p.dc), (151, 150, 149));
}

#[test]
fn parse_rejects_what_validate_rejects() {
    assert_eq!(
        parse("LLLLL").map(|p| p.dc),
        Err(DecodeError::LengthError)
    );
    assert_eq!(
        parse("0000000").map(|p| p.dc),
        Err(DecodeError::FormatError)
    );
}

#[test]
fn parse_rejects_foreign_character_inside() {
    // the string validates (length 6 fits the 1x1 grid its flag declares)
    // but its DC field holds a character outside the alphabet
    assert_eq!(validate("00!000"), Ok(()));
    assert_eq!(
        parse("00!000").map(|p| p.dc),
        Err(DecodeError::FormatError)
    );
}

#[test]
fn unpack_dc_splits_channels() {
    assert_eq!(unpack_dc(0), (0, 0, 0));
    assert_eq!(unpack_dc(16777215), (255, 255, 255));
    assert_eq!(unpack_dc(66051), (1, 2, 3));
}

#[test]
fn unpack_ac_splits_base19_channels() {
    assert_eq!(unpack_ac(0), (0, 0, 0));
    assert_eq!(unpack_ac(6858), (18, 18, 18));
    assert_eq!(unpack_ac(6888), (19, 1, 10));
    assert_eq!(unpack_ac(361 * 7 + 19 * 5 + 2), (7, 5, 2));
}

#[test]
fn rgba_buffer_shape() {
    let colors = vec![(1u8, 2u8, 3u8), (4u8, 5u8, 6u8)];
    let data = rgba_pixels(&colors, 2, 1);
    assert_eq!(data, vec![1, 2, 3, 255, 4, 5, 6, 255]);
}

#[test]
fn rgba_buffer_for_32_by_32_is_4096_bytes() {
    let colors = vec![(10u8, 20u8, 30u8); 32 * 32];
    let data = rgba_pixels(&colors, 32, 32);
    assert_eq!(data.len(), 4096);
    for (i, b) in data.iter().enumerate() {
        if i % 4 == 3 {
            assert_eq!(*b, 255);
        }
    }
}
