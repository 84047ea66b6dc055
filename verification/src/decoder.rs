//! Hash-side structure: validation of a BlurHash string against the
//! component grid it declares, and parsing of its fields into quantized
//! integer coefficients. The inverse transform back to pixels consumes
//! these coefficients.

use vstd::prelude::*;

use crate::base83::all_b83;
use crate::base83::b83_index;
use crate::base83::char_to_digit;
use crate::base83::decode83;
use crate::base83::pow83;
use crate::base83::spec_decode83;

verus! {

/// Why a hash string was rejected.
#[derive(Clone, Copy, Debug, PartialEq, Eq, Structural)]
pub enum DecodeError {
    /// The hash is shorter than 6 characters.
    LengthError,
    /// The hash does not fit the shape its size flag declares, or holds a
    /// character outside the base-83 alphabet.
    FormatError,
}

/// The size flag: the digit value of the hash's first character.
pub open spec fn spec_size_flag(s: Seq<char>) -> int {
    b83_index(s[0])
}

/// Horizontal component count declared by the size flag.
pub open spec fn spec_num_x(s: Seq<char>) -> int {
    spec_size_flag(s) % 9 + 1
}

/// Vertical component count declared by the size flag.
pub open spec fn spec_num_y(s: Seq<char>) -> int {
    spec_size_flag(s) / 9 + 1
}

/// The structural check: at least 6 characters, a size flag in the
/// alphabet, and a length of exactly 4 + num_x * num_y * 2.
pub open spec fn spec_validate(s: Seq<char>) -> Result<(), DecodeError> {
    if s.len() < 6 {
        Err(DecodeError::LengthError)
    } else if b83_index(s[0]) < 0 {
        Err(DecodeError::FormatError)
    } else if s.len() != 4 + spec_num_x(s) * spec_num_y(s) * 2 {
        Err(DecodeError::FormatError)
    } else {
        Ok(())
    }
}

/// Law: validation succeeds exactly on the hashes whose length is at least
/// 6 and equals 4 + num_x * num_y * 2 for the component counts the size
/// flag declares; a hash under 6 characters is a length error, everything
/// else rejected is a format error.
pub fn validate(hash: &str) -> (r: Result<(), DecodeError>)
    ensures
        r == spec_validate(hash@),
        r is Ok <==> hash@.len() >= 6 && b83_index(hash@[0]) >= 0 && hash@.len() == 4
            + spec_num_x(hash@) * spec_num_y(hash@) * 2,
{
    let len = hash.unicode_len();
    if len < 6 {
        return Err(DecodeError::LengthError);
    }
    let c = hash.get_char(0);
    match char_to_digit(c) {
        None => Err(DecodeError::FormatError),
        Some(sf) => {
            let num_x: usize = (sf % 9) as usize + 1;
            let num_y: usize = (sf / 9) as usize + 1;
            proof {
                assert(num_x * num_y <= 90) by (nonlinear_arith)
                    requires
                        num_x <= 9 && num_y <= 10,
                ;
            }
            if len == 4 + num_x * num_y * 2 {
                Ok(())
            } else {
                Err(DecodeError::FormatError)
            }
        },
    }
}

/// The quantized integer fields of a hash, exactly as its characters spell
/// them: the grid size, the quantized maximum AC magnitude, the packed DC
/// color, and one packed base-19 triple per AC term.
pub struct ParsedHash {
    /// Horizontal component count, 1 to 9.
    pub num_x: usize,
    /// Vertical component count, 1 to 10.
    pub num_y: usize,
    /// Quantized maximum AC magnitude, 0 to 82.
    pub questioned_max: u8,
    /// The DC field: a packed RGB integer read from 4 characters.
    pub dc: u32,
    /// The AC fields in row-major order, each read from 2 characters.
    pub ac: Vec<u16>,
}

/// Splits a hash into its quantized integer fields. Succeeds exactly on
/// the strings that validate and consist of alphabet characters only.
pub fn parse(hash: &str) -> (r: Result<ParsedHash, DecodeError>)
    ensures
        r is Ok <==> hash@.len() >= 6 && hash@.len() == 4 + spec_num_x(hash@) * spec_num_y(hash@)
            * 2 && all_b83(hash@),
        hash@.len() < 6 ==> r == Err::<ParsedHash, DecodeError>(DecodeError::LengthError),
        r is Err && hash@.len() >= 6 ==> r == Err::<ParsedHash, DecodeError>(
            DecodeError::FormatError,
        ),
        r matches Ok(p) ==> {
            &&& p.num_x == spec_num_x(hash@)
            &&& p.num_y == spec_num_y(hash@)
            &&& 1 <= p.num_x <= 9
            &&& 1 <= p.num_y <= 10
            &&& p.questioned_max == b83_index(hash@[1])
            &&& p.questioned_max <= 82
            &&& p.dc as nat == spec_decode83(hash@.subrange(2, 6))
            &&& p.dc < 47458321
            &&& p.ac@.len() == p.num_x * p.num_y - 1
            &&& forall|j: int|
                0 <= j < p.ac@.len() ==> #[trigger] p.ac@[j] as nat == spec_decode83(
                    hash@.subrange(6 + 2 * j, 8 + 2 * j),
                ) && p.ac@[j] < 6889
        },
{
    let len = hash.unicode_len();
    match validate(hash) {
        Err(e) => {
            return Err(e);
        },
        Ok(()) => (),
    }
    let sf = match char_to_digit(hash.get_char(0)) {
        None => {
            return Err(DecodeError::FormatError);
        },
        Some(sf) => sf,
    };
    let num_x: usize = (sf % 9) as usize + 1;
    let num_y: usize = (sf / 9) as usize + 1;
    let questioned_max = match char_to_digit(hash.get_char(1)) {
        None => {
            assert(!all_b83(hash@));
            return Err(DecodeError::FormatError);
        },
        Some(q) => q,
    };
    let dc_str = hash.substring_char(2, 6);
    let dc: u32 = match decode83(dc_str) {
        None => {
            assert(!all_b83(hash@)) by {
                let k = choose|k: int| 0 <= k < 4 && b83_index(hash@.subrange(2, 6)[k]) < 0;
                assert(b83_index(hash@[k + 2]) < 0);
            }
            return Err(DecodeError::FormatError);
        },
        Some(v) => {
            proof {
                reveal_with_fuel(pow83, 5);
                assert(pow83(4) == 47458321nat);
            }
            v as u32
        },
    };
    let count: usize = num_x * num_y - 1;
    let mut ac: Vec<u16> = Vec::new();
    let mut j: usize = 0;
    while j < count
        invariant
            len == hash@.len(),
            count == spec_num_x(hash@) * spec_num_y(hash@) - 1,
            len == 4 + (count + 1) * 2,
            j <= count,
            ac@.len() == j,
            forall|k: int|
                0 <= k < j ==> #[trigger] ac@[k] as nat == spec_decode83(
                    hash@.subrange(6 + 2 * k, 8 + 2 * k),
                ) && ac@[k] < 6889,
            forall|k: int| 6 <= k < 6 + 2 * j ==> b83_index(hash@[k]) >= 0,
        decreases count - j,
    {
        let sub = hash.substring_char(6 + 2 * j, 8 + 2 * j);
        match decode83(sub) {
            None => {
                assert(!all_b83(hash@)) by {
                    let k = choose|k: int|
                        0 <= k < 2 && #[trigger] b83_index(
                            hash@.subrange(6 + 2 * j, 8 + 2 * j)[k],
                        ) < 0;
                    assert(b83_index(hash@[k + 6 + 2 * j]) < 0);
                }
                return Err(DecodeError::FormatError);
            },
            Some(v) => {
                proof {
                    reveal_with_fuel(pow83, 3);
                    assert(pow83(2) == 6889nat);
                    assert forall|k: int| 6 <= k < 6 + 2 * (j + 1) implies b83_index(
                        hash@[k],
                    ) >= 0 by {
                        if k >= 6 + 2 * j {
                            assert(hash@.subrange(6 + 2 * j as int, 8 + 2 * j as int)[k - 6 - 2 * j
                                as int] == hash@[k]);
                        }
                    }
                }
                ac.push(v as u16);
            },
        }
        j = j + 1;
    }
    proof {
        assert forall|i: int| 0 <= i < hash@.len() implies b83_index(hash@[i]) >= 0 by {
            if i == 0 || i == 1 {
            } else if 2 <= i < 6 {
                assert(hash@.subrange(2, 6)[i - 2] == hash@[i]);
            } else {
                assert(6 <= i < 6 + 2 * count);
            }
        }
    }
    Ok(ParsedHash { num_x, num_y, questioned_max, dc, ac })
}

/// Unpacks the DC field: red is bits 16 to 23, green bits 8 to 15, blue
/// bits 0 to 7.
pub fn unpack_dc(v: u32) -> (r: (u8, u8, u8))
    ensures
        r.0 == (v / 65536) % 256,
        r.1 == (v / 256) % 256,
        r.2 == v % 256,
{
    (((v / 65536) % 256) as u8, ((v / 256) % 256) as u8, (v % 256) as u8)
}

/// Unpacks an AC field into its base-19 quantized channels: red is
/// floor(v / 361), green floor(v / 19) mod 19, blue v mod 19.
pub fn unpack_ac(v: u16) -> (r: (u8, u8, u8))
    requires
        v < 6889,
    ensures
        r.0 == v / 361,
        r.1 == (v / 19) % 19,
        r.2 == v % 19,
{
    ((v / 361) as u8, ((v / 19) % 19) as u8, (v % 19) as u8)
}

/// Law: a reconstructed image is a flat RGBA buffer of exactly
/// width * height * 4 bytes, pixels in row-major order, and every alpha
/// byte (each 4th byte) equal to 255.
pub fn rgba_pixels(colors: &Vec<(u8, u8, u8)>, width: u32, height: u32) -> (data: Vec<u8>)
    requires
        colors@.len() == width * height,
    ensures
        data@.len() == 4 * (width * height),
        forall|p: int|
            0 <= p < colors@.len() ==> data@[4 * p] == #[trigger] colors@[p].0 && data@[4 * p + 1]
                == colors@[p].1 && data@[4 * p + 2] == colors@[p].2 && data@[4 * p + 3] == 255,
        forall|k: int| 0 <= k < data@.len() && k % 4 == 3 ==> data@[k] == 255,
{
    let mut data: Vec<u8> = Vec::new();
    let n = colors.len();
    let mut p: usize = 0;
    while p < n
        invariant
            n == colors@.len(),
            p <= n,
            data@.len() == 4 * p,
            forall|q: int|
                0 <= q < p ==> data@[4 * q] == #[trigger] colors@[q].0 && data@[4 * q + 1]
                    == colors@[q].1 && data@[4 * q + 2] == colors@[q].2 && data@[4 * q + 3] == 255,
        decreases n - p,
    {
        let c = colors[p];
        data.push(c.0);
        data.push(c.1);
        data.push(c.2);
        data.push(255);
        p = p + 1;
    }
    proof {
        assert forall|k: int| 0 <= k < data@.len() && k % 4 == 3 implies data@[k] == 255 by {
            let q = k / 4;
            vstd::arithmetic::div_mod::lemma_fundamental_div_mod(k, 4);
            assert(data@[4 * q] == colors@[q].0);
            assert(data@[4 * q + 3] == 255);
        }
    }
    data
}

} // verus!
