//! Decoders for whole numbers (X.691 10.5, 10.7, 10.8) and length
//! determinants (X.691 10.9).
use vstd::prelude::*;
use crate::bits::{lemma_pow2_values, pow2};
use crate::codec_data::{read_spec, AperCodecData, AperCodecError};
use crate::model::{
    bit_len, bits_for_range, constrained_length_spec, constrained_raw_spec, constrained_spec,
    counted_octets_spec, normally_small_length_spec, octets_for, offset_by, range_octets,
    semi_constrained_spec, unconstrained_length_spec, unconstrained_spec,
};

verus! {

/// Bits used for a constrained whole number with a range below 256.
pub fn bits_needed_for_range(range: u8) -> (r: u8)
    ensures
        r == bits_for_range(range as int),
{
    if range <= 1 {
        0
    } else if range <= 2 {
        1
    } else if range <= 4 {
        2
    } else if range <= 8 {
        3
    } else if range <= 16 {
        4
    } else if range <= 32 {
        5
    } else if range <= 64 {
        6
    } else if range <= 128 {
        7
    } else {
        8
    }
}

/// Octets needed to hold the binary digits of `range`.
pub fn bytes_needed_for_range(range: u128) -> (r: u8)
    ensures
        r == octets_for(range as nat),
{
    proof {
        lemma_bit_len_bound(range as nat);
        lemma_pow2_values();
    }
    let mut x: u128 = range;
    let mut bits: u8 = 0;
    while x > 0
        invariant
            bits + bit_len(x as nat) == bit_len(range as nat),
            bit_len(range as nat) <= 128,
        decreases x,
    {
        proof {
            lemma_bit_len_bound(x as nat);
        }
        bits = bits + 1;
        x = x / 2;
    }
    bits / 8 + if bits % 8 == 0 { 0 } else { 1 }
}

/// A value below `2^128` has at most 128 binary digits, and one below `2^n`
/// at most `n`.
pub proof fn lemma_bit_len_bound(x: nat)
    ensures
        x < pow2(128) ==> bit_len(x) <= 128,
        forall|n: nat| x < #[trigger] pow2(n) ==> bit_len(x) <= n,
        x > 0 ==> pow2((bit_len(x) - 1) as nat) <= x,
        x < pow2(bit_len(x)),
    decreases x,
{
    lemma_pow2_values();
    if x > 0 {
        lemma_bit_len_bound(x / 2);
        assert forall|n: nat| x < #[trigger] pow2(n) implies bit_len(x) <= n by {
            if n > 0 {
                assert(pow2(n) == 2 * pow2((n - 1) as nat));
                assert(x / 2 < pow2((n - 1) as nat));
            } else {
                assert(pow2(0) == 1);
            }
        }
        assert(pow2(bit_len(x)) == 2 * pow2(bit_len(x / 2)));
        if x / 2 == 0 {
            assert(pow2(0) == 1);
        } else {
            assert(pow2((bit_len(x) - 1) as nat) == 2 * pow2((bit_len(x / 2) - 1) as nat));
        }
    } else {
        assert(pow2(0) == 1);
    }
}

/// The offset from the lower bound of a constrained whole number whose range
/// lies in `1..65536`.
fn decode_constrained_raw(data: &mut AperCodecData, range: u32) -> (r: Result<u128, AperCodecError>)
    requires
        old(data).wf(),
        1 <= range < 65536,
    ensures
        final(data).wf(),
        old(data).offset() <= final(data).offset(),
        final(data).bits() == old(data).bits(),
        match constrained_raw_spec(old(data).bits(), old(data).offset(), range as int) {
            Ok((v, p)) => r == Ok::<u128, AperCodecError>(v as u128) && v < 65536
                && final(data).offset() == p,
            Err(e) => r == Err::<u128, AperCodecError>(e),
        },
{
    proof {
        lemma_pow2_values();
        crate::bits::lemma_pow2_le(bits_for_range(range as int), 16);
    }
    if range < 256 {
        let bits = bits_needed_for_range(range as u8);
        data.decode_uint(bits as usize)
    } else {
        match data.decode_align() {
            Ok(()) => {},
            Err(e) => return Err(e),
        }
        data.decode_uint(if range == 256 { 8 } else { 16 })
    }
}

/// Decodes a constrained length determinant with bounds `lb..=ub`; ranges of
/// 65536 or more are not supported.
pub fn decode_constrained_length_detereminent(data: &mut AperCodecData, lb: usize, ub: usize) -> (r:
    Result<usize, AperCodecError>)
    requires
        old(data).wf(),
    ensures
        final(data).wf(),
        (ub < lb || ub - lb + 1 >= 65536) ==> final(data).offset() == old(data).offset(),
        old(data).offset() <= final(data).offset(),
        final(data).bits() == old(data).bits(),
        match constrained_length_spec(old(data).bits(), old(data).offset(), lb as int, ub as int) {
            Ok((v, p)) => r == Ok::<usize, AperCodecError>(v as usize) && final(data).offset() == p,
            Err(e) => r == Err::<usize, AperCodecError>(e),
        },
{
    if ub < lb {
        return Err(AperCodecError::InvalidRange);
    }
    if ub - lb >= 65535 {
        return Err(AperCodecError::UnsupportedRange);
    }
    let raw = match decode_constrained_raw(data, (ub - lb + 1) as u32) {
        Ok(v) => v,
        Err(e) => return Err(e),
    };
    if raw as usize > usize::MAX - lb {
        return Err(AperCodecError::ValueOutOfRange);
    }
    Ok(raw as usize + lb)
}

/// Decodes a constrained whole number with bounds `lb..=ub`.
pub fn decode_constrained_whole_number(data: &mut AperCodecData, lb: i128, ub: i128) -> (r: Result<
    i128,
    AperCodecError,
>)
    requires
        old(data).wf(),
    ensures
        final(data).wf(),
        old(data).offset() <= final(data).offset(),
        final(data).bits() == old(data).bits(),
        match constrained_spec(old(data).bits(), old(data).offset(), lb as int, ub as int) {
            Ok((v, p)) => r == Ok::<i128, AperCodecError>(v as i128) && final(data).offset() == p,
            Err(e) => r == Err::<i128, AperCodecError>(e),
        },
        ub < lb ==> r == Err::<i128, AperCodecError>(AperCodecError::InvalidRange)
            && final(data).offset() == old(data).offset(),
{
    if ub < lb {
        return Err(AperCodecError::InvalidRange);
    }
    let diff: u128 = if lb >= 0 || ub < 0 {
        (ub - lb) as u128
    } else {
        ub as u128 + (-(lb + 1)) as u128 + 1
    };
    proof {
        lemma_pow2_values();
    }
    let ghost bits = data.bits();
    let ghost pos = data.offset();
    let ghost range = ub - lb + 1;
    assert(diff == range - 1);
    let raw: u128 = if diff < 65535 {
        let v = match decode_constrained_raw(data, (diff + 1) as u32) {
            Ok(v) => v,
            Err(e) => return Err(e),
        };
        assert(constrained_spec(bits, pos, lb as int, ub as int) == offset_by(
            Ok::<(int, int), AperCodecError>((v as int, data.offset())),
            lb as int,
            i128::MIN as int,
            i128::MAX as int,
        ));
        v
    } else {
        let octets: u8 = if diff == u128::MAX {
            proof {
                lemma_bit_len_two_pow_128();
            }
            17
        } else {
            bytes_needed_for_range(diff + 1)
        };
        assert(octets == range_octets(range));
        let length = match decode_constrained_length_detereminent(data, 1, octets as usize) {
            Ok(v) => v,
            Err(e) => return Err(e),
        };
        if length > 15 {
            return Err(AperCodecError::ValueOutOfRange);
        }
        match data.decode_align() {
            Ok(()) => {},
            Err(e) => return Err(e),
        }
        let ghost p2 = data.offset();
        proof {
            crate::bits::lemma_pow2_le(((length + 1) * 8) as nat, 128);
        }
        let v = match data.decode_uint((length + 1) * 8) {
            Ok(v) => v,
            Err(e) => return Err(e),
        };
        assert(read_spec(bits, p2, (length + 1) * 8) == Ok::<(int, int), AperCodecError>((v as int, data.offset())));
        assert(constrained_spec(bits, pos, lb as int, ub as int) == offset_by(
            Ok::<(int, int), AperCodecError>((v as int, data.offset())),
            lb as int,
            i128::MIN as int,
            i128::MAX as int,
        ));
        v
    };
    add_offset_i128(raw, lb)
}

/// Decodes an unconstrained length determinant.
pub fn decode_unconstrained_length_determinent(data: &mut AperCodecData) -> (r: Result<
    usize,
    AperCodecError,
>)
    requires
        old(data).wf(),
    ensures
        final(data).wf(),
        old(data).offset() <= final(data).offset(),
        final(data).bits() == old(data).bits(),
        match unconstrained_length_spec(old(data).bits(), old(data).offset()) {
            Ok((v, p)) => r == Ok::<usize, AperCodecError>(v as usize) && v <= 65536
                && final(data).offset() == p,
            Err(e) => r == Err::<usize, AperCodecError>(e),
        },
{
    proof {
        lemma_pow2_values();
    }
    match data.decode_align() {
        Ok(()) => {},
        Err(e) => return Err(e),
    }
    let first = match data.decode_bool() {
        Ok(b) => b,
        Err(e) => return Err(e),
    };
    let length: u128 = if !first {
        match data.decode_uint(7) {
            Ok(v) => v,
            Err(e) => return Err(e),
        }
    } else {
        let second = match data.decode_bool() {
            Ok(b) => b,
            Err(e) => return Err(e),
        };
        if second {
            match data.decode_uint(14) {
                Ok(v) => v,
                Err(e) => return Err(e),
            }
        } else {
            let m = match data.decode_uint(6) {
                Ok(v) => v,
                Err(e) => return Err(e),
            };
            if m < 1 || m > 4 {
                return Err(AperCodecError::InvalidLengthMultiplier);
            }
            m * 16384
        }
    };
    Ok(length as usize)
}

/// Decodes a normally-small length determinant.
pub fn decode_normally_small_length_determinent(data: &mut AperCodecData) -> (r: Result<
    usize,
    AperCodecError,
>)
    requires
        old(data).wf(),
    ensures
        final(data).wf(),
        old(data).offset() <= final(data).offset(),
        final(data).bits() == old(data).bits(),
        match normally_small_length_spec(old(data).bits(), old(data).offset()) {
            Ok((v, p)) => r == Ok::<usize, AperCodecError>(v as usize) && final(data).offset() == p,
            Err(e) => r == Err::<usize, AperCodecError>(e),
        },
{
    proof {
        lemma_pow2_values();
    }
    let is_large = match data.decode_bool() {
        Ok(b) => b,
        Err(e) => return Err(e),
    };
    if !is_large {
        match data.decode_uint(6) {
            Ok(v) => Ok(v as usize + 1),
            Err(e) => Err(e),
        }
    } else {
        decode_unconstrained_length_determinent(data)
    }
}

/// The value octets after an unconstrained length determinant, as an
/// unsigned value.
fn decode_counted_octets(data: &mut AperCodecData) -> (r: Result<u128, AperCodecError>)
    requires
        old(data).wf(),
    ensures
        final(data).wf(),
        old(data).offset() <= final(data).offset(),
        final(data).bits() == old(data).bits(),
        match counted_octets_spec(old(data).bits(), old(data).offset()) {
            Ok((v, p)) => r == Ok::<u128, AperCodecError>(v as u128) && v < pow2(128)
                && final(data).offset() == p,
            Err(e) => r == Err::<u128, AperCodecError>(e),
        },
{
    let length = match decode_unconstrained_length_determinent(data) {
        Ok(v) => v,
        Err(e) => return Err(e),
    };
    if length > 16 {
        return Err(AperCodecError::ValueOutOfRange);
    }
    proof {
        lemma_pow2_values();
        crate::bits::lemma_pow2_le((length * 8) as nat, 128);
    }
    data.decode_uint(length * 8)
}

/// Decodes a semi-constrained whole number with lower bound `lb`.
pub fn decode_semi_constrained_whole_number(data: &mut AperCodecData, lb: i128) -> (r: Result<
    i128,
    AperCodecError,
>)
    requires
        old(data).wf(),
    ensures
        final(data).wf(),
        old(data).offset() <= final(data).offset(),
        final(data).bits() == old(data).bits(),
        match semi_constrained_spec(old(data).bits(), old(data).offset(), lb as int) {
            Ok((v, p)) => r == Ok::<i128, AperCodecError>(v as i128) && final(data).offset() == p,
            Err(e) => r == Err::<i128, AperCodecError>(e),
        },
{
    let raw = match decode_counted_octets(data) {
        Ok(v) => v,
        Err(e) => return Err(e),
    };
    proof {
        lemma_pow2_values();
    }
    add_offset_i128(raw, lb)
}

/// Decodes an unconstrained whole number: its octets as an unsigned value,
/// sixteen of them taken in two's complement. Whether the value is signed is
/// the caller's to say.
pub fn decode_unconstrained_whole_number(data: &mut AperCodecData) -> (r: Result<
    i128,
    AperCodecError,
>)
    requires
        old(data).wf(),
    ensures
        final(data).wf(),
        old(data).offset() <= final(data).offset(),
        final(data).bits() == old(data).bits(),
        match unconstrained_spec(old(data).bits(), old(data).offset()) {
            Ok((v, p)) => r == Ok::<i128, AperCodecError>(v as i128) && final(data).offset() == p,
            Err(e) => r == Err::<i128, AperCodecError>(e),
        },
{
    let raw = match decode_counted_octets(data) {
        Ok(v) => v,
        Err(e) => return Err(e),
    };
    proof {
        lemma_pow2_values();
    }
    if raw < 0x8000_0000_0000_0000_0000_0000_0000_0000 {
        Ok(raw as i128)
    } else {
        Ok((raw - 0x8000_0000_0000_0000_0000_0000_0000_0000) as i128 + i128::MIN)
    }
}

/// `raw + lb`, where it fits in an `i128`.
fn add_offset_i128(raw: u128, lb: i128) -> (r: Result<i128, AperCodecError>)
    ensures
        i128::MIN <= raw + lb <= i128::MAX ==> r == Ok::<i128, AperCodecError>((raw + lb) as i128),
        !(i128::MIN <= raw + lb <= i128::MAX) ==> r == Err::<i128, AperCodecError>(
            AperCodecError::ValueOutOfRange,
        ),
{
    if lb >= 0 {
        if raw > (i128::MAX - lb) as u128 {
            Err(AperCodecError::ValueOutOfRange)
        } else {
            Ok(raw as i128 + lb)
        }
    } else {
        let neg = (-(lb + 1)) as u128 + 1;
        if raw >= neg {
            let d = raw - neg;
            if d > i128::MAX as u128 {
                Err(AperCodecError::ValueOutOfRange)
            } else {
                Ok(d as i128)
            }
        } else {
            Ok(lb + raw as i128)
        }
    }
}

/// `2^128` has 129 binary digits, so 17 octets.
pub(crate) proof fn lemma_bit_len_two_pow_128()
    ensures
        octets_for(pow2(128)) == 17,
{
    lemma_pow2_values();
    lemma_bit_len_pow2(128);
}

proof fn lemma_bit_len_pow2(n: nat)
    ensures
        bit_len(pow2(n)) == n + 1,
    decreases n,
{
    if n > 0 {
        lemma_bit_len_pow2((n - 1) as nat);
        crate::bits::lemma_pow2_pos((n - 1) as nat);
        assert(pow2(n) / 2 == pow2((n - 1) as nat));
    } else {
        assert(pow2(0) == 1);
        assert(bit_len(0) == 0);
        assert(bit_len(1) == 1 + bit_len(0));
    }
}

} // verus!
