//! The base-83 positional numeral codec: an 83-symbol printable alphabet,
//! fixed-width encoding of non-negative integers, and Horner decoding.

use vstd::prelude::*;

verus! {

/// Digit value of a character of the base-83 alphabet; -1 for any
/// character outside it.
pub open spec fn b83_index(c: char) -> int {
    if c == '0' { 0 }
    else if c == '1' { 1 }
    else if c == '2' { 2 }
    else if c == '3' { 3 }
    else if c == '4' { 4 }
    else if c == '5' { 5 }
    else if c == '6' { 6 }
    else if c == '7' { 7 }
    else if c == '8' { 8 }
    else if c == '9' { 9 }
    else if c == 'A' { 10 }
    else if c == 'B' { 11 }
    else if c == 'C' { 12 }
    else if c == 'D' { 13 }
    else if c == 'E' { 14 }
    else if c == 'F' { 15 }
    else if c == 'G' { 16 }
    else if c == 'H' { 17 }
    else if c == 'I' { 18 }
    else if c == 'J' { 19 }
    else if c == 'K' { 20 }
    else if c == 'L' { 21 }
    else if c == 'M' { 22 }
    else if c == 'N' { 23 }
    else if c == 'O' { 24 }
    else if c == 'P' { 25 }
    else if c == 'Q' { 26 }
    else if c == 'R' { 27 }
    else if c == 'S' { 28 }
    else if c == 'T' { 29 }
    else if c == 'U' { 30 }
    else if c == 'V' { 31 }
    else if c == 'W' { 32 }
    else if c == 'X' { 33 }
    else if c == 'Y' { 34 }
    else if c == 'Z' { 35 }
    else if c == 'a' { 36 }
    else if c == 'b' { 37 }
    else if c == 'c' { 38 }
    else if c == 'd' { 39 }
    else if c == 'e' { 40 }
    else if c == 'f' { 41 }
    else if c == 'g' { 42 }
    else if c == 'h' { 43 }
    else if c == 'i' { 44 }
    else if c == 'j' { 45 }
    else if c == 'k' { 46 }
    else if c == 'l' { 47 }
    else if c == 'm' { 48 }
    else if c == 'n' { 49 }
    else if c == 'o' { 50 }
    else if c == 'p' { 51 }
    else if c == 'q' { 52 }
    else if c == 'r' { 53 }
    else if c == 's' { 54 }
    else if c == 't' { 55 }
    else if c == 'u' { 56 }
    else if c == 'v' { 57 }
    else if c == 'w' { 58 }
    else if c == 'x' { 59 }
    else if c == 'y' { 60 }
    else if c == 'z' { 61 }
    else if c == '#' { 62 }
    else if c == '$' { 63 }
    else if c == '%' { 64 }
    else if c == '*' { 65 }
    else if c == '+' { 66 }
    else if c == ',' { 67 }
    else if c == '-' { 68 }
    else if c == '.' { 69 }
    else if c == ':' { 70 }
    else if c == ';' { 71 }
    else if c == '=' { 72 }
    else if c == '?' { 73 }
    else if c == '@' { 74 }
    else if c == '[' { 75 }
    else if c == ']' { 76 }
    else if c == '^' { 77 }
    else if c == '_' { 78 }
    else if c == '{' { 79 }
    else if c == '|' { 80 }
    else if c == '}' { 81 }
    else if c == '~' { 82 }
    else { -1 }
}

/// Character that spells a base-83 digit; digits outside [0, 83) get a
/// character that is not in the alphabet.
pub open spec fn b83_char(d: int) -> char {
    if d == 0 { '0' }
    else if d == 1 { '1' }
    else if d == 2 { '2' }
    else if d == 3 { '3' }
    else if d == 4 { '4' }
    else if d == 5 { '5' }
    else if d == 6 { '6' }
    else if d == 7 { '7' }
    else if d == 8 { '8' }
    else if d == 9 { '9' }
    else if d == 10 { 'A' }
    else if d == 11 { 'B' }
    else if d == 12 { 'C' }
    else if d == 13 { 'D' }
    else if d == 14 { 'E' }
    else if d == 15 { 'F' }
    else if d == 16 { 'G' }
    else if d == 17 { 'H' }
    else if d == 18 { 'I' }
    else if d == 19 { 'J' }
    else if d == 20 { 'K' }
    else if d == 21 { 'L' }
    else if d == 22 { 'M' }
    else if d == 23 { 'N' }
    else if d == 24 { 'O' }
    else if d == 25 { 'P' }
    else if d == 26 { 'Q' }
    else if d == 27 { 'R' }
    else if d == 28 { 'S' }
    else if d == 29 { 'T' }
    else if d == 30 { 'U' }
    else if d == 31 { 'V' }
    else if d == 32 { 'W' }
    else if d == 33 { 'X' }
    else if d == 34 { 'Y' }
    else if d == 35 { 'Z' }
    else if d == 36 { 'a' }
    else if d == 37 { 'b' }
    else if d == 38 { 'c' }
    else if d == 39 { 'd' }
    else if d == 40 { 'e' }
    else if d == 41 { 'f' }
    else if d == 42 { 'g' }
    else if d == 43 { 'h' }
    else if d == 44 { 'i' }
    else if d == 45 { 'j' }
    else if d == 46 { 'k' }
    else if d == 47 { 'l' }
    else if d == 48 { 'm' }
    else if d == 49 { 'n' }
    else if d == 50 { 'o' }
    else if d == 51 { 'p' }
    else if d == 52 { 'q' }
    else if d == 53 { 'r' }
    else if d == 54 { 's' }
    else if d == 55 { 't' }
    else if d == 56 { 'u' }
    else if d == 57 { 'v' }
    else if d == 58 { 'w' }
    else if d == 59 { 'x' }
    else if d == 60 { 'y' }
    else if d == 61 { 'z' }
    else if d == 62 { '#' }
    else if d == 63 { '$' }
    else if d == 64 { '%' }
    else if d == 65 { '*' }
    else if d == 66 { '+' }
    else if d == 67 { ',' }
    else if d == 68 { '-' }
    else if d == 69 { '.' }
    else if d == 70 { ':' }
    else if d == 71 { ';' }
    else if d == 72 { '=' }
    else if d == 73 { '?' }
    else if d == 74 { '@' }
    else if d == 75 { '[' }
    else if d == 76 { ']' }
    else if d == 77 { '^' }
    else if d == 78 { '_' }
    else if d == 79 { '{' }
    else if d == 80 { '|' }
    else if d == 81 { '}' }
    else if d == 82 { '~' }
    else { ' ' }
}

/// Looks a character up in the base-83 alphabet.
pub fn char_to_digit(c: char) -> (r: Option<u8>)
    ensures
        r is Some <==> b83_index(c) >= 0,
        r matches Some(d) ==> d == b83_index(c) && d < 83,
{
    match c {
        '0' => Some(0),
        '1' => Some(1),
        '2' => Some(2),
        '3' => Some(3),
        '4' => Some(4),
        '5' => Some(5),
        '6' => Some(6),
        '7' => Some(7),
        '8' => Some(8),
        '9' => Some(9),
        'A' => Some(10),
        'B' => Some(11),
        'C' => Some(12),
        'D' => Some(13),
        'E' => Some(14),
        'F' => Some(15),
        'G' => Some(16),
        'H' => Some(17),
        'I' => Some(18),
        'J' => Some(19),
        'K' => Some(20),
        'L' => Some(21),
        'M' => Some(22),
        'N' => Some(23),
        'O' => Some(24),
        'P' => Some(25),
        'Q' => Some(26),
        'R' => Some(27),
        'S' => Some(28),
        'T' => Some(29),
        'U' => Some(30),
        'V' => Some(31),
        'W' => Some(32),
        'X' => Some(33),
        'Y' => Some(34),
        'Z' => Some(35),
        'a' => Some(36),
        'b' => Some(37),
        'c' => Some(38),
        'd' => Some(39),
        'e' => Some(40),
        'f' => Some(41),
        'g' => Some(42),
        'h' => Some(43),
        'i' => Some(44),
        'j' => Some(45),
        'k' => Some(46),
        'l' => Some(47),
        'm' => Some(48),
        'n' => Some(49),
        'o' => Some(50),
        'p' => Some(51),
        'q' => Some(52),
        'r' => Some(53),
        's' => Some(54),
        't' => Some(55),
        'u' => Some(56),
        'v' => Some(57),
        'w' => Some(58),
        'x' => Some(59),
        'y' => Some(60),
        'z' => Some(61),
        '#' => Some(62),
        '$' => Some(63),
        '%' => Some(64),
        '*' => Some(65),
        '+' => Some(66),
        ',' => Some(67),
        '-' => Some(68),
        '.' => Some(69),
        ':' => Some(70),
        ';' => Some(71),
        '=' => Some(72),
        '?' => Some(73),
        '@' => Some(74),
        '[' => Some(75),
        ']' => Some(76),
        '^' => Some(77),
        '_' => Some(78),
        '{' => Some(79),
        '|' => Some(80),
        '}' => Some(81),
        '~' => Some(82),
        _ => None,
    }
}

/// Spells a base-83 digit as its alphabet character.
pub fn digit_to_char(d: u8) -> (c: char)
    requires
        d < 83,
    ensures
        c == b83_char(d as int),
{
    match d {
        0 => '0',
        1 => '1',
        2 => '2',
        3 => '3',
        4 => '4',
        5 => '5',
        6 => '6',
        7 => '7',
        8 => '8',
        9 => '9',
        10 => 'A',
        11 => 'B',
        12 => 'C',
        13 => 'D',
        14 => 'E',
        15 => 'F',
        16 => 'G',
        17 => 'H',
        18 => 'I',
        19 => 'J',
        20 => 'K',
        21 => 'L',
        22 => 'M',
        23 => 'N',
        24 => 'O',
        25 => 'P',
        26 => 'Q',
        27 => 'R',
        28 => 'S',
        29 => 'T',
        30 => 'U',
        31 => 'V',
        32 => 'W',
        33 => 'X',
        34 => 'Y',
        35 => 'Z',
        36 => 'a',
        37 => 'b',
        38 => 'c',
        39 => 'd',
        40 => 'e',
        41 => 'f',
        42 => 'g',
        43 => 'h',
        44 => 'i',
        45 => 'j',
        46 => 'k',
        47 => 'l',
        48 => 'm',
        49 => 'n',
        50 => 'o',
        51 => 'p',
        52 => 'q',
        53 => 'r',
        54 => 's',
        55 => 't',
        56 => 'u',
        57 => 'v',
        58 => 'w',
        59 => 'x',
        60 => 'y',
        61 => 'z',
        62 => '#',
        63 => '$',
        64 => '%',
        65 => '*',
        66 => '+',
        67 => ',',
        68 => '-',
        69 => '.',
        70 => ':',
        71 => ';',
        72 => '=',
        73 => '?',
        74 => '@',
        75 => '[',
        76 => ']',
        77 => '^',
        78 => '_',
        79 => '{',
        80 => '|',
        81 => '}',
        82 => '~',
        _ => ' ',
    }
}

/// 83 raised to the power e.
pub open spec fn pow83(e: nat) -> nat
    decreases e,
{
    if e == 0 {
        1
    } else {
        83 * pow83((e - 1) as nat)
    }
}

/// Every character of the sequence is in the base-83 alphabet.
pub open spec fn all_b83(s: Seq<char>) -> bool {
    forall|i: int| 0 <= i < s.len() ==> b83_index(s[i]) >= 0
}

/// The fixed-width base-83 spelling of n, most significant digit first:
/// the digit at position i is floor(n / 83^(len - 1 - i)) mod 83.
pub open spec fn spec_encode83(n: nat, len: nat) -> Seq<char> {
    Seq::new(len, |i: int| b83_char((n / pow83((len - 1 - i) as nat)) as int % 83))
}

/// Horner evaluation of a base-83 digit string, left to right.
pub open spec fn spec_decode83(s: Seq<char>) -> nat
    decreases s.len(),
{
    if s.len() == 0 {
        0
    } else {
        spec_decode83(s.drop_last()) * 83 + (if b83_index(s.last()) >= 0 {
            b83_index(s.last())
        } else {
            0
        }) as nat
    }
}

/// The alphabet lookup inverts the digit spelling.
pub proof fn lemma_b83_char_index(d: int)
    requires
        0 <= d < 83,
    ensures
        b83_index(b83_char(d)) == d,
{
}

pub proof fn lemma_pow83_pos(e: nat)
    ensures
        pow83(e) >= 1,
    decreases e,
{
    if e > 0 {
        lemma_pow83_pos((e - 1) as nat);
    }
}

pub proof fn lemma_pow83_increases(a: nat, b: nat)
    requires
        a <= b,
    ensures
        pow83(a) <= pow83(b),
    decreases b,
{
    if a < b {
        lemma_pow83_increases(a, (b - 1) as nat);
        lemma_pow83_pos((b - 1) as nat);
    }
}

/// A string of k base-83 digits stands for a value below 83^k.
pub proof fn lemma_decode83_bound(s: Seq<char>)
    ensures
        spec_decode83(s) < pow83(s.len()),
    decreases s.len(),
{
    if s.len() > 0 {
        lemma_decode83_bound(s.drop_last());
        let p = pow83((s.len() - 1) as nat);
        let d = spec_decode83(s.drop_last());
        assert(b83_index(s.last()) <= 82);
        assert(d * 83 + 82 < p * 83) by (nonlinear_arith)
            requires
                d < p,
        ;
    }
}

/// Law: decoding undoes encoding. For every value n and width len with
/// n < 83^len, the len-character base-83 spelling of n is made of alphabet
/// characters only and decodes back to n.
pub proof fn lemma_base83_round_trip(n: nat, len: nat)
    requires
        n < pow83(len),
    ensures
        spec_encode83(n, len).len() == len,
        all_b83(spec_encode83(n, len)),
        spec_decode83(spec_encode83(n, len)) == n,
    decreases len,
{
    let s = spec_encode83(n, len);
    assert forall|i: int| 0 <= i < len implies b83_index(s[i]) >= 0 by {
        lemma_b83_char_index((n / pow83((len - 1 - i) as nat)) as int % 83);
    }
    if len == 0 {
        assert(s =~= Seq::<char>::empty());
    } else {
        let m = n / 83;
        let p1 = pow83((len - 1) as nat);
        // n / 83 stays below 83^(len - 1)
        vstd::arithmetic::div_mod::lemma_fundamental_div_mod(n as int, 83);
        if m >= p1 {
            assert(83 * m >= 83 * p1) by (nonlinear_arith)
                requires
                    m >= p1,
            ;
        }
        lemma_base83_round_trip(m, (len - 1) as nat);
        let t = spec_encode83(m, (len - 1) as nat);
        assert forall|i: int| 0 <= i < len - 1 implies s[i] == t[i] by {
            let e = (len - 2 - i) as nat;
            lemma_pow83_pos(e);
            vstd::arithmetic::div_mod::lemma_div_denominator(n as int, 83, pow83(e) as int);
            assert((n / 83) / pow83(e) == n / (83 * pow83(e)));
            assert(83 * pow83(e) == pow83((e + 1) as nat));
        }
        assert(s.drop_last() =~= t);
        assert(pow83(0) == 1);
        assert(s.last() == b83_char((n / pow83(0)) as int % 83));
        assert(n / pow83(0) == n);
        lemma_b83_char_index(n as int % 83);
        assert(spec_decode83(s) == (n / 83) * 83 + n % 83);
        assert(n == 83 * (n / 83) + n % 83);
    }
}

/// Relies on String::push: appends the given character to the end of the
/// string.
#[verifier::external_body]
fn push_char(s: &mut String, c: char)
    ensures
        final(s)@ == old(s)@.push(c),
{
    s.push(c);
}

fn pow83_exec(e: u32) -> (r: u64)
    requires
        e <= 9,
    ensures
        r as nat == pow83(e as nat),
        r >= 1,
{
    proof {
        lemma_pow83_pos(e as nat);
    }
    let mut r: u64 = 1;
    let mut k: u32 = 0;
    while k < e
        invariant
            k <= e <= 9,
            r as nat == pow83(k as nat),
        decreases e - k,
    {
        proof {
            lemma_pow83_increases(k as nat, 8);
            reveal_with_fuel(pow83, 10);
            assert(pow83(8) == 2252292232139041nat);
        }
        r = r * 83;
        k = k + 1;
    }
    r
}

/// Writes value in base 83, most significant digit first, as exactly len
/// characters. The value must fit the width: n < 83^len.
pub fn encode83(n: u32, len: u32) -> (r: String)
    requires
        len <= 10,
        (n as nat) < pow83(len as nat),
    ensures
        r@ == spec_encode83(n as nat, len as nat),
        r@.len() == len,
        all_b83(r@),
{
    let ghost target = spec_encode83(n as nat, len as nat);
    let mut r = String::new();
    let mut i: u32 = 0;
    while i < len
        invariant
            i <= len <= 10,
            (n as nat) < pow83(len as nat),
            target == spec_encode83(n as nat, len as nat),
            r@.len() == i,
            forall|k: int| 0 <= k < i ==> r@[k] == target[k],
            all_b83(r@),
        decreases len - i,
    {
        let e: u32 = len - 1 - i;
        let p: u64 = pow83_exec(e);
        let d: u8 = ((n as u64 / p) % 83) as u8;
        proof {
            lemma_b83_char_index(d as int);
        }
        let c = digit_to_char(d);
        push_char(&mut r, c);
        i = i + 1;
    }
    proof {
        assert(r@ =~= target);
    }
    r
}

/// Horner evaluation of a base-83 string: v = v * 83 + digit for each
/// character, left to right. A character outside the alphabet yields None.
pub fn decode83(s: &str) -> (r: Option<u64>)
    requires
        s@.len() <= 10,
    ensures
        r is Some <==> all_b83(s@),
        r matches Some(v) ==> v as nat == spec_decode83(s@) && (v as nat) < pow83(s@.len()),
{
    let len = s.unicode_len();
    let mut v: u64 = 0;
    let mut i: usize = 0;
    while i < len
        invariant
            len == s@.len() <= 10,
            i <= len,
            all_b83(s@.take(i as int)),
            v as nat == spec_decode83(s@.take(i as int)),
        decreases len - i,
    {
        let c = s.get_char(i);
        match char_to_digit(c) {
            None => {
                assert(!all_b83(s@));
                return None;
            },
            Some(d) => {
                proof {
                    lemma_decode83_bound(s@.take(i as int));
                    lemma_pow83_increases(i as nat, 9);
                    reveal_with_fuel(pow83, 11);
                    assert(pow83(9) == 186940255267540403nat);
                }
                v = v * 83 + (d as u64);
                proof {
                    assert(s@.take(i + 1).drop_last() =~= s@.take(i as int));
                    assert(s@.take(i + 1).last() == s@[i as int]);
                }
                i = i + 1;
            },
        }
    }
    proof {
        assert(s@.take(len as int) =~= s@);
        lemma_decode83_bound(s@);
    }
    Some(v)
}

} // verus!
