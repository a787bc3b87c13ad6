//! The APER wire format as spec functions: what each decoder reads from a bit
//! string at a position, and what each encoder appends to a string of a given
//! length.
use vstd::prelude::*;
use crate::bits::{nat_to_bits, padding, pow2};
use crate::codec_data::{align_spec, read_spec, wrap_i128, AperCodecError};

verus! {

/// Bits used for a constrained whole number whose range is below 256: the
/// ceiling of `log2(range)`.
pub open spec fn bits_for_range(range: int) -> nat {
    if range <= 1 {
        0
    } else if range <= 2 {
        1
    } else if range <= 4 {
        2
    } else if range <= 8 {
        3
    } else if range <= 16 {
        4
    } else if range <= 32 {
        5
    } else if range <= 64 {
        6
    } else if range <= 128 {
        7
    } else {
        8
    }
}

/// The number of binary digits of `x` (0 for 0).
pub open spec fn bit_len(x: nat) -> nat
    decreases x,
{
    if x == 0 {
        0
    } else {
        1 + bit_len(x / 2)
    }
}

/// Octets needed to hold the binary digits of `x`.
pub open spec fn octets_for(x: nat) -> nat {
    (bit_len(x) + 7) / 8
}

/// The smallest positive number of octets that holds `x`.
pub open spec fn min_octets(x: nat) -> nat {
    if x == 0 {
        1
    } else {
        octets_for(x)
    }
}

pub open spec fn in_i128(x: int) -> bool {
    i128::MIN <= x <= i128::MAX
}

/// Adds `off` to the value of a successful read, failing where the sum leaves
/// `lo..=hi`.
pub open spec fn offset_by(
    r: Result<(int, int), AperCodecError>,
    off: int,
    lo: int,
    hi: int,
) -> Result<(int, int), AperCodecError> {
    match r {
        Ok((v, p)) => if lo <= v + off <= hi {
            Ok((v + off, p))
        } else {
            Err(AperCodecError::ValueOutOfRange)
        },
        Err(e) => Err(e),
    }
}

/// The unsigned offset from the lower bound of a constrained whole number
/// whose range lies in `1..65536`.
pub open spec fn constrained_raw_spec(bits: Seq<bool>, pos: int, range: int) -> Result<
    (int, int),
    AperCodecError,
> {
    if range < 256 {
        read_spec(bits, pos, bits_for_range(range) as int)
    } else {
        match align_spec(bits, pos) {
            Ok(p) => read_spec(bits, p, if range == 256 { 8 } else { 16 }),
            Err(e) => Err(e),
        }
    }
}

/// A constrained length determinant with bounds `lb..=ub`.
pub open spec fn constrained_length_spec(bits: Seq<bool>, pos: int, lb: int, ub: int) -> Result<
    (int, int),
    AperCodecError,
> {
    if ub < lb {
        Err(AperCodecError::InvalidRange)
    } else if ub - lb + 1 >= 65536 {
        Err(AperCodecError::UnsupportedRange)
    } else {
        offset_by(constrained_raw_spec(bits, pos, ub - lb + 1), lb, 0, usize::MAX as int)
    }
}

/// Octets that hold the value of a constrained whole number with a range of
/// 65536 or more: enough for the binary digits of the range.
pub open spec fn range_octets(range: int) -> nat {
    octets_for(range as nat)
}

/// A constrained whole number with bounds `lb..=ub`.
pub open spec fn constrained_spec(bits: Seq<bool>, pos: int, lb: int, ub: int) -> Result<
    (int, int),
    AperCodecError,
> {
    let range = ub - lb + 1;
    if range <= 0 {
        Err(AperCodecError::InvalidRange)
    } else if range < 65536 {
        offset_by(constrained_raw_spec(bits, pos, range), lb, i128::MIN as int, i128::MAX as int)
    } else {
        match constrained_length_spec(bits, pos, 1, range_octets(range) as int) {
            Ok((length, p1)) => {
                let n = (length + 1) * 8;
                if n > 128 {
                    Err(AperCodecError::ValueOutOfRange)
                } else {
                    match align_spec(bits, p1) {
                        Ok(p2) => offset_by(
                            read_spec(bits, p2, n),
                            lb,
                            i128::MIN as int,
                            i128::MAX as int,
                        ),
                        Err(e) => Err(e),
                    }
                }
            },
            Err(e) => Err(e),
        }
    }
}

/// An unconstrained length determinant.
pub open spec fn unconstrained_length_spec(bits: Seq<bool>, pos: int) -> Result<
    (int, int),
    AperCodecError,
> {
    match align_spec(bits, pos) {
        Err(e) => Err(e),
        Ok(p) => if p >= bits.len() {
            Err(AperCodecError::OutOfBits)
        } else if !bits[p] {
            read_spec(bits, p + 1, 7)
        } else if p + 1 >= bits.len() {
            Err(AperCodecError::OutOfBits)
        } else if bits[p + 1] {
            read_spec(bits, p + 2, 14)
        } else {
            match read_spec(bits, p + 2, 6) {
                Ok((m, q)) => if 1 <= m <= 4 {
                    Ok((m * 16384, q))
                } else {
                    Err(AperCodecError::InvalidLengthMultiplier)
                },
                Err(e) => Err(e),
            }
        },
    }
}

/// A normally-small length determinant.
pub open spec fn normally_small_length_spec(bits: Seq<bool>, pos: int) -> Result<
    (int, int),
    AperCodecError,
> {
    if pos >= bits.len() {
        Err(AperCodecError::OutOfBits)
    } else if !bits[pos] {
        offset_by(read_spec(bits, pos + 1, 6), 1, 0, usize::MAX as int)
    } else {
        unconstrained_length_spec(bits, pos + 1)
    }
}

/// The value octets that follow an unconstrained length determinant, as an
/// unsigned value; more than 16 octets do not fit.
pub open spec fn counted_octets_spec(bits: Seq<bool>, pos: int) -> Result<
    (int, int),
    AperCodecError,
> {
    match unconstrained_length_spec(bits, pos) {
        Ok((length, p)) => if length > 16 {
            Err(AperCodecError::ValueOutOfRange)
        } else {
            read_spec(bits, p, length * 8)
        },
        Err(e) => Err(e),
    }
}

/// A semi-constrained whole number with lower bound `lb`.
pub open spec fn semi_constrained_spec(bits: Seq<bool>, pos: int, lb: int) -> Result<
    (int, int),
    AperCodecError,
> {
    offset_by(counted_octets_spec(bits, pos), lb, i128::MIN as int, i128::MAX as int)
}

/// An unconstrained whole number: its octets as an unsigned value, sixteen of
/// them taken in two's complement.
pub open spec fn unconstrained_spec(bits: Seq<bool>, pos: int) -> Result<
    (int, int),
    AperCodecError,
> {
    match counted_octets_spec(bits, pos) {
        Ok((v, p)) => Ok((wrap_i128(v), p)),
        Err(e) => Err(e),
    }
}

/// The bits appended, to a string of `len` bits, for the offset `raw` from
/// the lower bound of a constrained whole number whose range lies in
/// `1..65536`.
pub open spec fn constrained_raw_bits(len: int, raw: nat, range: int) -> Seq<bool> {
    if range < 256 {
        nat_to_bits(raw, bits_for_range(range))
    } else {
        padding(len) + nat_to_bits(raw, if range == 256 { 8 } else { 16 })
    }
}

/// What a constrained length determinant with bounds `lb..=ub` appends for `n`.
pub open spec fn encode_constrained_length_spec(len: int, n: int, lb: int, ub: int) -> Result<
    Seq<bool>,
    AperCodecError,
> {
    if ub < lb {
        Err(AperCodecError::InvalidRange)
    } else if ub - lb + 1 >= 65536 {
        Err(AperCodecError::UnsupportedRange)
    } else if n < lb || n > ub {
        Err(AperCodecError::ValueOutOfRange)
    } else {
        Ok(constrained_raw_bits(len, (n - lb) as nat, ub - lb + 1))
    }
}

/// Octets that carry the offset `raw` of a constrained whole number with a
/// range of 65536 or more: the fewest that hold it, and at least two, since
/// the length determinant before them counts one less than their number.
pub open spec fn wide_octets(raw: nat) -> nat {
    if min_octets(raw) < 2 {
        2
    } else {
        min_octets(raw)
    }
}

/// What a constrained whole number with bounds `lb..=ub` appends for `value`.
pub open spec fn encode_constrained_spec(len: int, value: int, lb: int, ub: int) -> Result<
    Seq<bool>,
    AperCodecError,
> {
    let range = ub - lb + 1;
    let raw = (value - lb) as nat;
    if range <= 0 {
        Err(AperCodecError::InvalidRange)
    } else if value < lb || value > ub {
        Err(AperCodecError::ValueOutOfRange)
    } else if range < 65536 {
        Ok(constrained_raw_bits(len, raw, range))
    } else {
        let k = wide_octets(raw);
        let head = constrained_raw_bits(len, (k - 2) as nat, range_octets(range) as int);
        Ok(head + padding(len + head.len()) + nat_to_bits(raw, 8 * k))
    }
}

/// Lengths that an unconstrained length determinant can carry by itself.
pub open spec fn unconstrained_length_fits(n: int) -> bool {
    0 <= n < 16384 || (n % 16384 == 0 && 16384 <= n <= 65536)
}

/// What an unconstrained length determinant appends for `n`: the shortest
/// form that carries it.
pub open spec fn encode_unconstrained_length_spec(len: int, n: int) -> Result<
    Seq<bool>,
    AperCodecError,
> {
    if !unconstrained_length_fits(n) {
        Err(AperCodecError::ValueOutOfRange)
    } else if n < 128 {
        Ok(padding(len) + seq![false] + nat_to_bits(n as nat, 7))
    } else if n < 16384 {
        Ok(padding(len) + seq![true, true] + nat_to_bits(n as nat, 14))
    } else {
        Ok(padding(len) + seq![true, false] + nat_to_bits((n / 16384) as nat, 6))
    }
}

/// What a normally-small length determinant appends for `n`: the small form
/// for `1..=64`, the large form otherwise.
pub open spec fn encode_normally_small_length_spec(len: int, n: int) -> Result<
    Seq<bool>,
    AperCodecError,
> {
    if 1 <= n <= 64 {
        Ok(seq![false] + nat_to_bits((n - 1) as nat, 6))
    } else {
        match encode_unconstrained_length_spec(len + 1, n) {
            Ok(s) => Ok(seq![true] + s),
            Err(e) => Err(e),
        }
    }
}

/// An unconstrained length determinant for `k` octets, then `raw` in them.
pub open spec fn counted_octets_bits(len: int, raw: nat, k: nat) -> Seq<bool> {
    padding(len) + seq![false] + nat_to_bits(k, 7) + nat_to_bits(raw, 8 * k)
}

/// What a semi-constrained whole number with lower bound `lb` appends for
/// `value`: the offset from `lb` in the fewest octets that hold it.
pub open spec fn encode_semi_constrained_spec(len: int, value: int, lb: int) -> Result<
    Seq<bool>,
    AperCodecError,
> {
    if value < lb {
        Err(AperCodecError::ValueOutOfRange)
    } else {
        Ok(counted_octets_bits(len, (value - lb) as nat, min_octets((value - lb) as nat)))
    }
}

/// What an unconstrained whole number appends for `value`: a non-negative
/// value in the fewest octets that hold it, a negative one in sixteen octets
/// of two's complement.
pub open spec fn encode_unconstrained_spec(len: int, value: int) -> Seq<bool> {
    if value >= 0 {
        counted_octets_bits(len, value as nat, min_octets(value as nat))
    } else {
        counted_octets_bits(len, (value + pow2(128)) as nat, 16)
    }
}

} // verus!
