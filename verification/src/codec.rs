//! Numeric codecs shared by the assembler and the VM: the two's-complement
//! view of `i32`, little-endian 32-bit byte order, and decimal parsing.

use vstd::prelude::*;

verus! {

use vstd::bytes::spec_u32_from_le_bytes;
use vstd::bytes::spec_u32_to_le_bytes;

// ---------------------------------------------------------------------------
// Two's-complement correspondence between i32 and u32.
// ---------------------------------------------------------------------------

/// The bit pattern of a signed 32-bit value, read as unsigned.
pub open spec fn u32_of_i32(v: i32) -> u32 {
    if v >= 0 {
        v as u32
    } else {
        ((v as int) + 0x1_0000_0000) as u32
    }
}

/// The signed reading of an unsigned 32-bit bit pattern.
pub open spec fn i32_of_u32(n: u32) -> i32 {
    if n < 0x8000_0000 {
        n as i32
    } else {
        ((n as int) - 0x1_0000_0000) as i32
    }
}

pub proof fn lemma_i32_u32_roundtrip(v: i32)
    ensures
        i32_of_u32(u32_of_i32(v)) == v,
{
}

pub proof fn lemma_u32_i32_roundtrip(n: u32)
    ensures
        u32_of_i32(i32_of_u32(n)) == n,
{
}

// ---------------------------------------------------------------------------
// Little-endian 32-bit byte order, through byteorder.
// ---------------------------------------------------------------------------

/// Relies on byteorder's `LittleEndian::read_i32`: reads the first four
/// bytes as a signed 32-bit little-endian integer.
#[verifier::external_body]
pub fn le_read_i32(buf: &[u8]) -> (r: i32)
    requires
        buf@.len() >= 4,
    ensures
        r == i32_of_u32(spec_u32_from_le_bytes(buf@.subrange(0, 4))),
{
    <byteorder::LittleEndian as byteorder::ByteOrder>::read_i32(buf)
}

/// Relies on byteorder's `LittleEndian::write_i32`: writes the four
/// little-endian bytes of a signed 32-bit integer.
#[verifier::external_body]
pub fn le_write_i32(num: i32) -> (r: Vec<u8>)
    ensures
        r@ == spec_u32_to_le_bytes(u32_of_i32(num)),
{
    let mut buf = vec![0u8; 4];
    <byteorder::LittleEndian as byteorder::ByteOrder>::write_i32(&mut buf, num);
    buf
}

/// Relies on byteorder's `LittleEndian::write_u32`: writes the four
/// little-endian bytes of an unsigned 32-bit integer.
#[verifier::external_body]
pub fn le_write_u32(num: u32) -> (r: Vec<u8>)
    ensures
        r@ == spec_u32_to_le_bytes(num),
{
    let mut buf = vec![0u8; 4];
    <byteorder::LittleEndian as byteorder::ByteOrder>::write_u32(&mut buf, num);
    buf
}

// ---------------------------------------------------------------------------
// Decimal digit runs.
// ---------------------------------------------------------------------------

/// The value of a decimal digit character, or -1 for any other character.
pub open spec fn digit_val(c: char) -> int {
    if c == '0' {
        0
    } else if c == '1' {
        1
    } else if c == '2' {
        2
    } else if c == '3' {
        3
    } else if c == '4' {
        4
    } else if c == '5' {
        5
    } else if c == '6' {
        6
    } else if c == '7' {
        7
    } else if c == '8' {
        8
    } else if c == '9' {
        9
    } else {
        -1
    }
}

pub open spec fn is_digit(c: char) -> bool {
    digit_val(c) >= 0
}

/// The digit value of a character, when it is one.
pub fn digit_of(c: char) -> (r: Option<u32>)
    ensures
        match r {
            Some(d) => is_digit(c) && d == digit_val(c),
            None => !is_digit(c),
        },
{
    match c {
        '0' => Some(0),
        '1' => Some(1),
        '2' => Some(2),
        '3' => Some(3),
        '4' => Some(4),
        '5' => Some(5),
        '6' => Some(6),
        '7' => Some(7),
        '8' => Some(8),
        '9' => Some(9),
        _ => None,
    }
}

pub open spec fn all_digits(s: Seq<char>) -> bool {
    forall|i: int| 0 <= i < s.len() ==> is_digit(#[trigger] s[i])
}

/// The value of a run of decimal digits, most significant first.
pub open spec fn digits_val(s: Seq<char>) -> int
    decreases s.len(),
{
    if s.len() == 0 {
        0
    } else {
        digits_val(s.drop_last()) * 10 + digit_val(s.last())
    }
}

pub open spec fn pow10(n: int) -> int
    decreases n,
{
    if n <= 0 {
        1
    } else {
        10 * pow10(n - 1)
    }
}

pub proof fn lemma_pow10_pos(n: int)
    ensures
        pow10(n) >= 1,
    decreases n,
{
    if n > 0 {
        lemma_pow10_pos(n - 1);
    }
}

pub proof fn lemma_pow10_mono(a: int, b: int)
    requires
        a <= b,
    ensures
        pow10(a) <= pow10(b),
        pow10(a) >= 1,
    decreases b,
{
    lemma_pow10_pos(a);
    if b > 0 && a < b {
        lemma_pow10_mono(a, b - 1);
    }
}

pub proof fn lemma_digits_val_bounds(s: Seq<char>)
    requires
        all_digits(s),
    ensures
        0 <= digits_val(s) < pow10(s.len() as int),
    decreases s.len(),
{
    if s.len() > 0 {
        assert(all_digits(s.drop_last())) by {
            assert(forall|i: int|
                0 <= i < s.len() - 1 ==> s.drop_last()[i] == #[trigger] s[i]);
        }
        lemma_digits_val_bounds(s.drop_last());
        assert(is_digit(s.last()));
    }
}

/// A nonzero leading digit puts the value at or above pow10(len - 1).
pub proof fn lemma_digits_val_lower(s: Seq<char>)
    requires
        all_digits(s),
        s.len() > 0,
        digit_val(s[0]) >= 1,
    ensures
        digits_val(s) >= pow10(s.len() - 1),
    decreases s.len(),
{
    if s.len() == 1 {
        assert(digits_val(s) == digits_val(s.drop_last()) * 10 + digit_val(s.last()));
        assert(s.drop_last().len() == 0);
    } else {
        assert(all_digits(s.drop_last())) by {
            assert(forall|i: int|
                0 <= i < s.len() - 1 ==> s.drop_last()[i] == #[trigger] s[i]);
        }
        assert(s.drop_last()[0] == s[0]);
        lemma_digits_val_lower(s.drop_last());
        assert(is_digit(s.last()));
        lemma_pow10_mono(0, s.len() - 2);
    }
}

pub proof fn lemma_digits_all_zero(s: Seq<char>)
    requires
        forall|i: int| 0 <= i < s.len() ==> #[trigger] s[i] == '0',
    ensures
        digits_val(s) == 0,
    decreases s.len(),
{
    if s.len() > 0 {
        assert(forall|i: int|
            0 <= i < s.len() - 1 ==> #[trigger] s.drop_last()[i] == s[i]);
        lemma_digits_all_zero(s.drop_last());
        assert(s.last() == '0');
    }
}

/// Leading zeros do not change the value of a digit run.
pub proof fn lemma_digits_val_skip_zeros(s: Seq<char>, k: int)
    requires
        0 <= k <= s.len(),
        forall|i: int| 0 <= i < k ==> #[trigger] s[i] == '0',
    ensures
        digits_val(s) == digits_val(s.subrange(k, s.len() as int)),
    decreases s.len(),
{
    if s.len() == 0 || k == 0 {
        assert(s.subrange(k, s.len() as int) =~= s);
    } else if k == s.len() {
        lemma_digits_all_zero(s);
        assert(s.subrange(k, s.len() as int).len() == 0);
    } else {
        lemma_digits_val_skip_zeros(s.drop_last(), k);
        assert(s.drop_last().subrange(k, s.len() - 1)
            =~= s.subrange(k, s.len() as int).drop_last());
        assert(s.subrange(k, s.len() as int).last() == s.last());
        assert(digits_val(s) == digits_val(s.drop_last()) * 10 + digit_val(s.last()));
        assert(digits_val(s.subrange(k, s.len() as int))
            == digits_val(s.subrange(k, s.len() as int).drop_last()) * 10
                + digit_val(s.subrange(k, s.len() as int).last()));
    }
}

/// The value of a digit run in `s[from..to]`, saturated at 0x1_0000_0000:
/// `None` when the range is empty or holds a non-digit.
pub open spec fn spec_digit_run(ds: Seq<char>) -> Option<u64> {
    if ds.len() == 0 || !all_digits(ds) {
        None
    } else if digits_val(ds) <= 0xFFFF_FFFF {
        Some(digits_val(ds) as u64)
    } else {
        Some(0x1_0000_0000u64)
    }
}

#[verifier::loop_isolation(false)]
fn digit_run_sat(s: &[char], from: usize, to: usize) -> (r: Option<u64>)
    requires
        from <= to <= s@.len(),
    ensures
        r == spec_digit_run(s@.subrange(from as int, to as int)),
{
    let ghost ds = s@.subrange(from as int, to as int);
    if from == to {
        return None;
    }
    let mut i: usize = from;
    while i < to
        invariant
            from <= i <= to <= s@.len(),
            forall|j: int| from <= j < i ==> is_digit(#[trigger] s@[j]),
        decreases to - i,
    {
        let c = s[i];
        if digit_of(c).is_none() {
            assert(!all_digits(ds)) by {
                assert(ds.len() == to - from);
                assert(ds[i - from] == s@[i as int]);
            }
            return None;
        }
        i += 1;
    }
    assert(all_digits(ds)) by {
        assert(forall|j: int| 0 <= j < ds.len() ==> ds[j] == #[trigger] s@[from + j]);
    }
    // skip leading zeros, so that the bounded accumulation below suffices
    let mut z: usize = from;
    while z < to && s[z] == '0'
        invariant
            from <= z <= to <= s@.len(),
            forall|j: int| from <= j < z ==> #[trigger] s@[j] == '0',
        decreases to - z,
    {
        z += 1;
    }
    proof {
        lemma_digits_val_skip_zeros(ds, z - from);
        assert(ds.subrange(z - from, ds.len() as int)
            =~= s@.subrange(z as int, to as int));
    }
    let ghost run = s@.subrange(z as int, to as int);
    if to - z > 10 {
        proof {
            assert(run[0] == s@[z as int]);
            assert(is_digit(run[0]));
            assert(digit_val(run[0]) >= 1);
            assert(all_digits(run)) by {
                assert(forall|j: int| 0 <= j < run.len() ==> run[j] == #[trigger] s@[z + j]);
            }
            lemma_digits_val_lower(run);
            lemma_pow10_mono(10, run.len() - 1);
            assert(pow10(10) == 10_000_000_000) by {
                reveal_with_fuel(pow10, 11);
            }
        }
        return Some(0x1_0000_0000u64);
    }
    let mut acc: u64 = 0;
    let mut i: usize = z;
    while i < to
        invariant
            z <= i <= to <= s@.len(),
            to - z <= 10,
            run == s@.subrange(z as int, to as int),
            all_digits(run),
            acc == digits_val(s@.subrange(z as int, i as int)),
            0 <= acc < pow10(i - z),
        decreases to - i,
    {
        let c = s[i];
        proof {
            assert(run[i - z] == s@[i as int]);
            assert(is_digit(s@[i as int]));
            lemma_pow10_mono(i - z, 10);
            assert(pow10(10) == 10_000_000_000) by {
                reveal_with_fuel(pow10, 11);
            }
        }
        let d = match digit_of(c) {
            Some(d) => d,
            None => 0,
        };
        acc = acc * 10 + (d as u64);
        proof {
            let pre = s@.subrange(z as int, i as int);
            let post = s@.subrange(z as int, i + 1);
            assert(post.drop_last() =~= pre);
            assert(post.last() == s@[i as int]);
            assert(digits_val(post) == digits_val(pre) * 10 + digit_val(s@[i as int]));
        }
        i += 1;
    }
    assert(digits_val(ds) == acc) by {
        assert(s@.subrange(z as int, i as int) =~= run);
    }
    if acc > 0xFFFF_FFFF {
        Some(0x1_0000_0000u64)
    } else {
        Some(acc)
    }
}

// ---------------------------------------------------------------------------
// Decimal integer parsing, as the assembly surface uses it.
// ---------------------------------------------------------------------------

/// A signed decimal literal: an optional sign, then digits, value in i32.
pub open spec fn spec_parse_i32(s: Seq<char>) -> Option<i32> {
    let signed = s.len() > 0 && (s[0] == '-' || s[0] == '+');
    let neg = s.len() > 0 && s[0] == '-';
    let ds = if signed {
        s.subrange(1, s.len() as int)
    } else {
        s
    };
    if ds.len() == 0 || !all_digits(ds) {
        None
    } else if neg {
        if digits_val(ds) <= 0x8000_0000 {
            Some((-digits_val(ds)) as i32)
        } else {
            None
        }
    } else {
        if digits_val(ds) <= 0x7FFF_FFFF {
            Some(digits_val(ds) as i32)
        } else {
            None
        }
    }
}

/// An unsigned decimal literal: an optional plus sign, then digits, value in u32.
pub open spec fn spec_parse_u32(s: Seq<char>) -> Option<u32> {
    let ds = if s.len() > 0 && s[0] == '+' {
        s.subrange(1, s.len() as int)
    } else {
        s
    };
    if ds.len() == 0 || !all_digits(ds) {
        None
    } else if digits_val(ds) <= 0xFFFF_FFFF {
        Some(digits_val(ds) as u32)
    } else {
        None
    }
}

pub fn parse_i32_chars(s: &[char]) -> (r: Option<i32>)
    ensures
        r == spec_parse_i32(s@),
{
    let n = s.len();
    let signed = n > 0 && (s[0] == '-' || s[0] == '+');
    let neg = n > 0 && s[0] == '-';
    let from: usize = if signed { 1 } else { 0 };
    proof {
        if signed {
            assert(s@.subrange(1, n as int) =~= s@.subrange(from as int, n as int));
        } else {
            assert(s@ =~= s@.subrange(from as int, n as int));
        }
        let ds = s@.subrange(from as int, n as int);
        if ds.len() > 0 && all_digits(ds) {
            lemma_digits_val_bounds(ds);
        }
    }
    match digit_run_sat(s, from, n) {
        None => None,
        Some(v) => {
            if neg {
                if v <= 0x8000_0000 {
                    Some((-(v as i64)) as i32)
                } else {
                    None
                }
            } else {
                if v <= 0x7FFF_FFFF {
                    Some(v as i32)
                } else {
                    None
                }
            }
        }
    }
}

pub fn parse_u32_chars(s: &[char]) -> (r: Option<u32>)
    ensures
        r == spec_parse_u32(s@),
{
    let n = s.len();
    let plus = n > 0 && s[0] == '+';
    let from: usize = if plus { 1 } else { 0 };
    proof {
        if plus {
            assert(s@.subrange(1, n as int) =~= s@.subrange(from as int, n as int));
        } else {
            assert(s@ =~= s@.subrange(from as int, n as int));
        }
        let ds = s@.subrange(from as int, n as int);
        if ds.len() > 0 && all_digits(ds) {
            lemma_digits_val_bounds(ds);
        }
    }
    match digit_run_sat(s, from, n) {
        None => None,
        Some(v) => {
            if v <= 0xFFFF_FFFF {
                Some(v as u32)
            } else {
                None
            }
        }
    }
}

} // verus!

