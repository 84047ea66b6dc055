use blurhash::assemble_hash;
use blurhash::check_encode_inputs;
use blurhash::pack_ac;
use blurhash::pack_dc;
use blurhash::parse;
use blurhash::size_flag;
use blurhash::validate;
use blurhash::EncodeError;

#[test]
fn input_checks_pass_on_well_formed_arguments() {
    assert_eq!(check_encode_inputs(16, 2, 2, 4, 3), Ok(()));
    assert_eq!(check_encode_inputs(4, 1, 1, 1, 1), Ok(()));
}

#[test]
fn input_checks_reject_component_counts_with_range_error() {
    assert_eq!(
        check_encode_inputs(16, 2, 2, 0, 3),
        Err(EncodeError::RangeError)
    );
    assert_eq!(
        check_encode_inputs(16, 2, 2, 4, 10),
        Err(EncodeError::RangeError)
    );
}

#[test]
fn input_checks_reject_short_buffer_with_size_mismatch() {
    assert_eq!(
        check_encode_inputs(15, 2, 2, 4, 3),
        Err(EncodeError::SizeMismatch)
    );
    assert_eq!(
        check_encode_inputs(0, 2, 2, 4, 3),
        Err(EncodeError::SizeMismatch)
    );
}

#[test]
fn size_flag_values() {
    assert_eq!(size_flag(1, 1), 0);
    assert_eq!(size_flag(4, 3), 21);
    assert_eq!(size_flag(9, 9), 80);
}

#[test]
fn pack_dc_values() {
    assert_eq!(pack_dc(0, 0, 0), 0);
    assert_eq!(pack_dc(255, 255, 255), 16777215);
    assert_eq!(pack_dc(1, 2, 3), 66051);
}

#[test]
fn pack_ac_values() {
    assert_eq!(pack_ac(0, 0, 0), 0);
    assert_eq!(pack_ac(18, 18, 18), 6858);
    assert_eq!(pack_ac(9, 9, 9), 361 * 9 + 19 * 9 + 9);
}

#[test]
fn uniform_black_pixel_hash() {
    // a 1x1 black image with components (1, 1): the DC color is 0 and
    // there are no AC terms, so the hash is the six-character "000000"
    let hash = assemble_hash(1, 1, 0, pack_dc(0, 0, 0), &vec![]);
    assert_eq!(hash, "000000");
    assert_eq!(validate(&hash), Ok(()));
}

#[test]
fn uniform_white_pixel_hash() {
    let hash = assemble_hash(1, 1, 0, pack_dc(255, 255, 255), &vec![]);
    assert_eq!(hash, "00TSUA");
    assert_eq!(validate(&hash), Ok(()));
}

#[test]
fn assembled_hash_parses_back() {
    let ac = vec![pack_ac(9, 9, 9), pack_ac(0, 18, 5)];
    let hash = assemble_hash(3, 1, 40, pack_dc(12, 34, 56), &ac);
    let p = parse(&hash).unwrap();
    assert_eq!(p.num_x, 3);
    assert_eq!(p.num_y, 1);
    assert_eq!(p.questioned_max, 40);
    assert_eq!(p.dc, pack_dc(12, 34, 56));
    assert_eq!(p.ac, ac);
}

#[test]
fn parsed_hash_reassembles_to_itself() {
    let hash = "LEHV6nWB2yk8pyo0adR*.7kCMdnj";
    let p = parse(hash).unwrap();
    let rebuilt = assemble_hash(
        p.num_x as u8,
        p.num_y as u8,
        p.questioned_max,
        p.dc,
        &p.ac,
    );
    assert_eq!(rebuilt, hash);
}
