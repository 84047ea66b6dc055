//! Encoder-side structure: argument checks, packing of quantized
//! coefficients into their integer fields, and serialization of the fields
//! into a BlurHash string. The forward transform produces the quantized
//! values these functions pack.

use vstd::prelude::*;

use crate::base83::all_b83;
use crate::base83::b83_char;
use crate::base83::b83_index;
use crate::base83::encode83;
use crate::base83::lemma_b83_char_index;
use crate::base83::lemma_base83_round_trip;
use crate::base83::pow83;
use crate::base83::spec_decode83;
use crate::base83::spec_encode83;
use crate::decoder::spec_num_x;
use crate::decoder::spec_num_y;
use crate::decoder::spec_validate;

verus! {

/// Why an image could not be encoded.
#[derive(Clone, Copy, Debug, PartialEq, Eq, Structural)]
pub enum EncodeError {
    /// A component count lies outside [1, 9].
    RangeError,
    /// The pixel buffer length is not width * height * 4.
    SizeMismatch,
}

/// Both component counts lie in [1, 9].
pub open spec fn components_in_range(component_x: u8, component_y: u8) -> bool {
    1 <= component_x <= 9 && 1 <= component_y <= 9
}

/// Law: encoding is owed exactly when both component counts lie in [1, 9]
/// and the pixel buffer holds width * height pixels of 4 bytes; component
/// counts are checked first.
pub fn check_encode_inputs(
    pixels_len: usize,
    width: u32,
    height: u32,
    component_x: u8,
    component_y: u8,
) -> (r: Result<(), EncodeError>)
    ensures
        r is Ok <==> components_in_range(component_x, component_y) && pixels_len == 4 * (
        width * height),
        !components_in_range(component_x, component_y) ==> r == Err::<(), EncodeError>(
            EncodeError::RangeError,
        ),
        components_in_range(component_x, component_y) && pixels_len != 4 * (width * height) ==> r
            == Err::<(), EncodeError>(EncodeError::SizeMismatch),
{
    if component_x < 1 || component_x > 9 || component_y < 1 || component_y > 9 {
        return Err(EncodeError::RangeError);
    }
    let w = width as u128;
    let h = height as u128;
    proof {
        assert(w * h <= 0xffff_fffe_0000_0001u128) by (nonlinear_arith)
            requires
                w <= 0xffff_ffffu128 && h <= 0xffff_ffffu128,
        ;
    }
    if (pixels_len as u128) != 4 * (w * h) {
        return Err(EncodeError::SizeMismatch);
    }
    Ok(())
}

/// The size flag that declares a component grid: (x - 1) + (y - 1) * 9.
pub fn size_flag(component_x: u8, component_y: u8) -> (r: u8)
    requires
        components_in_range(component_x, component_y),
    ensures
        r == (component_x - 1) + (component_y - 1) * 9,
        r <= 80,
{
    (component_x - 1) + (component_y - 1) * 9
}

/// Packs a quantized DC color into one 24-bit integer: red in bits 16 to
/// 23, green in bits 8 to 15, blue in bits 0 to 7.
pub fn pack_dc(r: u8, g: u8, b: u8) -> (v: u32)
    ensures
        v == (r as int) * 65536 + (g as int) * 256 + b,
        v < 16777216,
{
    (r as u32) * 65536 + (g as u32) * 256 + (b as u32)
}

/// Packs three base-19 quantized AC channels into one integer:
/// red * 19^2 + green * 19 + blue, below 83^2.
pub fn pack_ac(r: u8, g: u8, b: u8) -> (v: u16)
    requires
        r <= 18,
        g <= 18,
        b <= 18,
    ensures
        v == (r as int) * 361 + (g as int) * 19 + b,
        v < 6889,
{
    (r as u16) * 361 + (g as u16) * 19 + (b as u16)
}

/// The characters of the AC section: each field spelled as 2 base-83
/// characters, in order.
pub open spec fn spec_ac_chars(ac: Seq<u16>) -> Seq<char>
    decreases ac.len(),
{
    if ac.len() == 0 {
        Seq::empty()
    } else {
        spec_ac_chars(ac.drop_last()) + spec_encode83(ac.last() as nat, 2)
    }
}

proof fn lemma_ac_chars_len(ac: Seq<u16>)
    ensures
        spec_ac_chars(ac).len() == 2 * ac.len(),
    decreases ac.len(),
{
    if ac.len() > 0 {
        lemma_ac_chars_len(ac.drop_last());
    }
}

proof fn lemma_ac_chars_group(ac: Seq<u16>, j: int)
    requires
        0 <= j < ac.len(),
    ensures
        spec_ac_chars(ac).subrange(2 * j, 2 * j + 2) =~= spec_encode83(ac[j] as nat, 2),
    decreases ac.len(),
{
    lemma_ac_chars_len(ac);
    lemma_ac_chars_len(ac.drop_last());
    if j == ac.len() - 1 {
        assert(spec_ac_chars(ac).subrange(2 * j, 2 * j + 2) =~= spec_encode83(
            ac.last() as nat,
            2,
        ));
    } else {
        lemma_ac_chars_group(ac.drop_last(), j);
        assert(spec_ac_chars(ac).subrange(2 * j, 2 * j + 2) =~= spec_ac_chars(
            ac.drop_last(),
        ).subrange(2 * j, 2 * j + 2));
    }
}

/// The full character sequence of a serialized hash: the size flag, the
/// quantized maximum, 4 characters of DC field, and the AC section.
pub open spec fn spec_hash_chars(
    component_x: u8,
    component_y: u8,
    questioned_max: u8,
    dc: u32,
    ac: Seq<u16>,
) -> Seq<char> {
    spec_encode83(((component_x - 1) + (component_y - 1) * 9) as nat, 1) + spec_encode83(
        questioned_max as nat,
        1,
    ) + spec_encode83(dc as nat, 4) + spec_ac_chars(ac)
}

/// Law: serialization keeps every field recoverable. In the character
/// sequence of a hash built from in-range fields, the character at index 1
/// decodes to the quantized maximum, the characters at indices 2 to 6
/// decode to the DC field, and the 2-character group starting at 6 + 2j
/// decodes to the j-th AC field — the values the parser reads back.
pub proof fn lemma_hash_fields_recovered(
    component_x: u8,
    component_y: u8,
    questioned_max: u8,
    dc: u32,
    ac: Seq<u16>,
)
    requires
        components_in_range(component_x, component_y),
        questioned_max <= 82,
        dc < 16777216,
        forall|j: int| 0 <= j < ac.len() ==> ac[j] < 6889,
    ensures
        b83_index(spec_hash_chars(component_x, component_y, questioned_max, dc, ac)[1])
            == questioned_max,
        spec_decode83(
            spec_hash_chars(component_x, component_y, questioned_max, dc, ac).subrange(2, 6),
        ) == dc,
        forall|j: int|
            0 <= j < ac.len() ==> spec_decode83(
                #[trigger] spec_hash_chars(component_x, component_y, questioned_max, dc, ac)
                    .subrange(6 + 2 * j, 8 + 2 * j),
            ) == ac[j],
{
    reveal_with_fuel(pow83, 5);
    assert(pow83(1) == 83nat);
    assert(pow83(2) == 6889nat);
    assert(pow83(4) == 47458321nat);
    let s = spec_hash_chars(component_x, component_y, questioned_max, dc, ac);
    let e_qm = spec_encode83(questioned_max as nat, 1);
    let e_dc = spec_encode83(dc as nat, 4);
    lemma_ac_chars_len(ac);
    // the quantized maximum
    assert(s[1] == e_qm[0]);
    assert(pow83(0) == 1);
    vstd::arithmetic::div_mod::lemma_div_basics(questioned_max as int);
    assert(questioned_max as nat / pow83(0) == questioned_max as nat);
    assert(s[1] == b83_char(questioned_max as int));
    lemma_b83_char_index(questioned_max as int);
    // the DC field
    assert(s.subrange(2, 6) =~= e_dc);
    lemma_base83_round_trip(dc as nat, 4);
    // the AC fields
    assert forall|j: int| 0 <= j < ac.len() implies spec_decode83(
        #[trigger] s.subrange(6 + 2 * j, 8 + 2 * j),
    ) == ac[j] by {
        lemma_ac_chars_group(ac, j);
        assert(s.subrange(6 + 2 * j, 8 + 2 * j) =~= spec_ac_chars(ac).subrange(
            2 * j,
            2 * j + 2,
        ));
        lemma_base83_round_trip(ac[j] as nat, 2);
    }
}

/// Serializes the quantized fields of a hash: the size flag, the
/// quantized maximum AC magnitude, 4 characters of packed DC color, and 2
/// characters per packed AC field. The result always validates.
#[verifier::rlimit(50)]
pub fn assemble_hash(
    component_x: u8,
    component_y: u8,
    questioned_max: u8,
    dc: u32,
    ac: &Vec<u16>,
) -> (r: String)
    requires
        components_in_range(component_x, component_y),
        questioned_max <= 82,
        dc < 16777216,
        ac@.len() == component_x * component_y - 1,
        forall|j: int| 0 <= j < ac@.len() ==> ac@[j] < 6889,
    ensures
        r@ == spec_hash_chars(component_x, component_y, questioned_max, dc, ac@),
        r@.len() == 4 + 2 * (component_x * component_y),
        all_b83(r@),
        spec_num_x(r@) == component_x,
        spec_num_y(r@) == component_y,
        spec_validate(r@) is Ok,
{
    proof {
        reveal_with_fuel(pow83, 5);
        assert(pow83(1) == 83nat);
        assert(pow83(2) == 6889nat);
        assert(pow83(4) == 47458321nat);
    }
    let sf = size_flag(component_x, component_y);
    let ghost head = spec_encode83(sf as nat, 1) + spec_encode83(questioned_max as nat, 1)
        + spec_encode83(dc as nat, 4);
    let mut r = encode83(sf as u32, 1);
    let qm = encode83(questioned_max as u32, 1);
    r.append(qm.as_str());
    let dcs = encode83(dc, 4);
    r.append(dcs.as_str());
    assert(r@ =~= head);
    let n = ac.len();
    let mut j: usize = 0;
    while j < n
        invariant
            n == ac@.len(),
            j <= n,
            forall|k: int| 0 <= k < ac@.len() ==> ac@[k] < 6889,
            pow83(2) == 6889nat,
            head.len() == 6,
            all_b83(head),
            r@ == head + spec_ac_chars(ac@.take(j as int)),
            all_b83(r@),
        decreases n - j,
    {
        let field = encode83(ac[j] as u32, 2);
        r.append(field.as_str());
        proof {
            let t = ac@.take(j + 1);
            assert(t.drop_last() =~= ac@.take(j as int));
            assert(t.last() == ac@[j as int]);
            assert(r@ =~= head + spec_ac_chars(t));
            lemma_ac_chars_len(ac@.take(j + 1));
        }
        j = j + 1;
    }
    proof {
        assert(ac@.take(n as int) =~= ac@);
        lemma_ac_chars_len(ac@);
        assert(component_x * component_y <= 81) by (nonlinear_arith)
            requires
                component_x <= 9 && component_y <= 9,
        ;
        // the first character decodes back to the size flag, and the
        // declared grid matches the component counts
        assert(r@[0] == head[0]);
        assert(head[0] == spec_encode83(sf as nat, 1)[0]);
        assert(pow83(0) == 1);
        assert(head[0] == b83_char((sf as nat / pow83(0)) as int % 83));
        vstd::arithmetic::div_mod::lemma_div_basics(sf as int);
        assert(sf as nat / pow83(0) == sf as nat);
        assert(sf as int % 83 == sf);
        assert(head[0] == b83_char(sf as int));
        lemma_b83_char_index(sf as int);
        assert(b83_index(r@[0]) == sf);
        vstd::arithmetic::div_mod::lemma_fundamental_div_mod_converse(
            sf as int,
            9,
            component_y - 1,
            component_x - 1,
        );
        assert(spec_num_x(r@) == component_x);
        assert(spec_num_y(r@) == component_y);
    }
    r
}


} // verus!
