//! Encoders for whole numbers and length determinants, each the inverse of
//! its decoder.
use vstd::prelude::*;
use crate::bits::{lemma_pow2_values, nat_to_bits, padding, pow2};
use crate::codec_data::{AperCodecData, AperCodecError};
use crate::decode::{bits_needed_for_range, bytes_needed_for_range, lemma_bit_len_bound};
use crate::model::{
    constrained_raw_bits, counted_octets_bits, encode_constrained_length_spec,
    encode_constrained_spec, encode_normally_small_length_spec, encode_semi_constrained_spec,
    encode_unconstrained_length_spec, encode_unconstrained_spec, min_octets,
    range_octets, wide_octets, bit_len,
};

verus! {

/// Appends the offset `raw` of a constrained whole number whose range lies in
/// `1..65536`.
fn encode_constrained_raw(data: &mut AperCodecData, raw: u128, range: u32)
    requires
        old(data).wf(),
        1 <= range < 65536,
    ensures
        final(data).wf(),
        final(data).offset() == old(data).offset(),
        final(data).bits() == old(data).bits() + constrained_raw_bits(
            old(data).bits().len() as int,
            raw as nat,
            range as int,
        ),
{
    if range < 256 {
        let bits = bits_needed_for_range(range as u8);
        data.encode_uint(raw, bits as usize);
    } else {
        let ghost a = data.bits();
        data.encode_align();
        data.encode_uint(raw, if range == 256 { 8 } else { 16 });
        assert(data.bits() =~= a + constrained_raw_bits(a.len() as int, raw as nat, range as int));
    }
}

/// Encodes `n` as a constrained length determinant with bounds `lb..=ub`;
/// ranges of 65536 or more are not supported. Nothing is appended on failure.
pub fn encode_constrained_length_determinent(
    data: &mut AperCodecData,
    n: usize,
    lb: usize,
    ub: usize,
) -> (r: Result<(), AperCodecError>)
    requires
        old(data).wf(),
    ensures
        final(data).wf(),
        final(data).offset() == old(data).offset(),
        match encode_constrained_length_spec(old(data).bits().len() as int, n as int, lb as int, ub as int) {
            Ok(s) => r is Ok && final(data).bits() == old(data).bits() + s,
            Err(e) => r == Err::<(), AperCodecError>(e) && final(data).bits() == old(data).bits(),
        },
{
    if ub < lb {
        return Err(AperCodecError::InvalidRange);
    }
    if ub - lb >= 65535 {
        return Err(AperCodecError::UnsupportedRange);
    }
    if n < lb || n > ub {
        return Err(AperCodecError::ValueOutOfRange);
    }
    encode_constrained_raw(data, (n - lb) as u128, (ub - lb + 1) as u32);
    Ok(())
}

/// The fewest octets, at least one, that hold `raw`.
fn min_octets_of(raw: u128) -> (r: usize)
    ensures
        r == min_octets(raw as nat),
        1 <= r <= 16,
{
    proof {
        lemma_pow2_values();
        lemma_bit_len_bound(raw as nat);
    }
    if raw == 0 {
        1
    } else {
        bytes_needed_for_range(raw) as usize
    }
}

/// Encodes `value` as a constrained whole number with bounds `lb..=ub`.
/// Nothing is appended on failure.
pub fn encode_constrained_whole_number(data: &mut AperCodecData, value: i128, lb: i128, ub: i128) -> (r:
    Result<(), AperCodecError>)
    requires
        old(data).wf(),
    ensures
        final(data).wf(),
        final(data).offset() == old(data).offset(),
        match encode_constrained_spec(old(data).bits().len() as int, value as int, lb as int, ub as int) {
            Ok(s) => r is Ok && final(data).bits() == old(data).bits() + s,
            Err(e) => r == Err::<(), AperCodecError>(e) && final(data).bits() == old(data).bits(),
        },
{
    if ub < lb {
        return Err(AperCodecError::InvalidRange);
    }
    if value < lb || value > ub {
        return Err(AperCodecError::ValueOutOfRange);
    }
    let diff: u128 = if lb >= 0 || ub < 0 {
        (ub - lb) as u128
    } else {
        ub as u128 + (-(lb + 1)) as u128 + 1
    };
    let raw: u128 = if lb >= 0 || value < 0 {
        (value - lb) as u128
    } else {
        value as u128 + (-(lb + 1)) as u128 + 1
    };
    proof {
        lemma_pow2_values();
    }
    let ghost a = data.bits();
    let ghost range = ub - lb + 1;
    if diff < 65535 {
        encode_constrained_raw(data, raw, (diff + 1) as u32);
    } else {
        let octets: u8 = if diff == u128::MAX {
            proof {
                crate::decode::lemma_bit_len_two_pow_128();
            }
            17
        } else {
            bytes_needed_for_range(diff + 1)
        };
        assert(octets == range_octets(range));
        let k = min_octets_of(raw);
        let k = if k < 2 { 2 } else { k };
        assert(k == wide_octets(raw as nat));
        proof {
            lemma_wide_octets_fit(raw as nat, range);
        }
        encode_constrained_raw(data, (k - 2) as u128, octets as u32);
        let ghost b = data.bits();
        data.encode_align();
        data.encode_uint(raw, 8 * k);
        let ghost head = constrained_raw_bits(a.len() as int, (k - 2) as nat, octets as int);
        assert(data.bits() =~= a + (head + padding((a.len() + head.len()) as int) + nat_to_bits(raw as nat, (8 * k) as nat)));
    }
    Ok(())
}

/// Encodes `n` as an unconstrained length determinant in the shortest form
/// that carries it. Lengths from 16384 on are carried only as 16384, 32768,
/// 49152 or 65536; for others nothing is appended.
pub fn encode_unconstrained_length_determinent(data: &mut AperCodecData, n: usize) -> (r: Result<
    (),
    AperCodecError,
>)
    requires
        old(data).wf(),
    ensures
        final(data).wf(),
        final(data).offset() == old(data).offset(),
        match encode_unconstrained_length_spec(old(data).bits().len() as int, n as int) {
            Ok(s) => r is Ok && final(data).bits() == old(data).bits() + s,
            Err(e) => r == Err::<(), AperCodecError>(e) && final(data).bits() == old(data).bits(),
        },
{
    if !(n < 16384 || (n % 16384 == 0 && n <= 65536)) {
        return Err(AperCodecError::ValueOutOfRange);
    }
    let ghost a = data.bits();
    data.encode_align();
    if n < 128 {
        data.encode_bool(false);
        data.encode_uint(n as u128, 7);
        assert(data.bits() =~= a + (padding(a.len() as int) + seq![false] + nat_to_bits(n as nat, 7)));
    } else if n < 16384 {
        data.encode_bool(true);
        data.encode_bool(true);
        data.encode_uint(n as u128, 14);
        assert(data.bits() =~= a + (padding(a.len() as int) + seq![true, true] + nat_to_bits(n as nat, 14)));
    } else {
        data.encode_bool(true);
        data.encode_bool(false);
        data.encode_uint((n / 16384) as u128, 6);
        assert(data.bits() =~= a + (padding(a.len() as int) + seq![true, false] + nat_to_bits((n / 16384) as nat, 6)));
    }
    Ok(())
}

/// Encodes `n` as a normally-small length determinant: `1..=64` in the small
/// form, anything else in the large form, where an unconstrained length
/// determinant carries it. Nothing is appended on failure.
pub fn encode_normally_small_length_determinent(data: &mut AperCodecData, n: usize) -> (r: Result<
    (),
    AperCodecError,
>)
    requires
        old(data).wf(),
    ensures
        final(data).wf(),
        final(data).offset() == old(data).offset(),
        match encode_normally_small_length_spec(old(data).bits().len() as int, n as int) {
            Ok(s) => r is Ok && final(data).bits() == old(data).bits() + s,
            Err(e) => r == Err::<(), AperCodecError>(e) && final(data).bits() == old(data).bits(),
        },
{
    let ghost a = data.bits();
    if 1 <= n && n <= 64 {
        data.encode_bool(false);
        data.encode_uint((n - 1) as u128, 6);
        assert(data.bits() =~= a + (seq![false] + nat_to_bits((n - 1) as nat, 6)));
        Ok(())
    } else if !(n < 16384 || (n % 16384 == 0 && n <= 65536)) {
        Err(AperCodecError::ValueOutOfRange)
    } else {
        data.encode_bool(true);
        let r = encode_unconstrained_length_determinent(data, n);
        proof {
            let s = encode_unconstrained_length_spec(a.len() + 1int, n as int);
            assert(s is Ok);
            assert(data.bits() =~= a + (seq![true] + s->Ok_0));
        }
        r
    }
}

/// Appends an unconstrained length determinant for `k` octets, then `raw` in them.
fn encode_counted_octets(data: &mut AperCodecData, raw: u128, k: usize)
    requires
        old(data).wf(),
        1 <= k <= 16,
    ensures
        final(data).wf(),
        final(data).offset() == old(data).offset(),
        final(data).bits() == old(data).bits() + counted_octets_bits(
            old(data).bits().len() as int,
            raw as nat,
            k as nat,
        ),
{
    let ghost a = data.bits();
    data.encode_align();
    data.encode_bool(false);
    data.encode_uint(k as u128, 7);
    data.encode_uint(raw, 8 * k);
    assert(data.bits() =~= a + counted_octets_bits(a.len() as int, raw as nat, k as nat));
}

/// Encodes `value` as a semi-constrained whole number with lower bound `lb`,
/// in the fewest octets that hold `value - lb`. Nothing is appended on failure.
pub fn encode_semi_constrained_whole_number(data: &mut AperCodecData, value: i128, lb: i128) -> (r:
    Result<(), AperCodecError>)
    requires
        old(data).wf(),
    ensures
        final(data).wf(),
        final(data).offset() == old(data).offset(),
        match encode_semi_constrained_spec(old(data).bits().len() as int, value as int, lb as int) {
            Ok(s) => r is Ok && final(data).bits() == old(data).bits() + s,
            Err(e) => r == Err::<(), AperCodecError>(e) && final(data).bits() == old(data).bits(),
        },
{
    if value < lb {
        return Err(AperCodecError::ValueOutOfRange);
    }
    let raw: u128 = if lb >= 0 || value < 0 {
        (value - lb) as u128
    } else {
        value as u128 + (-(lb + 1)) as u128 + 1
    };
    let k = min_octets_of(raw);
    encode_counted_octets(data, raw, k);
    Ok(())
}

/// Encodes `value` as an unconstrained whole number: a non-negative value in
/// the fewest octets that hold it, a negative one in sixteen octets of two's
/// complement.
pub fn encode_unconstrained_whole_number(data: &mut AperCodecData, value: i128)
    requires
        old(data).wf(),
    ensures
        final(data).wf(),
        final(data).offset() == old(data).offset(),
        final(data).bits() == old(data).bits() + encode_unconstrained_spec(
            old(data).bits().len() as int,
            value as int,
        ),
{
    proof {
        lemma_pow2_values();
    }
    if value >= 0 {
        let k = min_octets_of(value as u128);
        encode_counted_octets(data, value as u128, k);
    } else {
        let raw = (value - i128::MIN) as u128 + 0x8000_0000_0000_0000_0000_0000_0000_0000;
        encode_counted_octets(data, raw, 16);
    }
}

/// The octet count of a wide constrained whole number is below the number of
/// octets that hold its range, so the length determinant before it can carry it.
pub(crate) proof fn lemma_wide_octets_fit(raw: nat, range: int)
    requires
        65536 <= range,
        raw < range,
        range <= pow2(128),
    ensures
        2 <= wide_octets(raw) <= 16,
        wide_octets(raw) - 2 < range_octets(range),
        range_octets(range) <= 17,
{
    lemma_bit_len_bound(raw);
    lemma_bit_len_bound(range as nat);
    lemma_pow2_values();
    let b = bit_len(range as nat);
    assert(range < pow2(b));
    if b <= 16 {
        crate::bits::lemma_pow2_le(b, 16);
    }
    assert(bit_len(raw) <= b);
    assert(b <= 129) by {
        if b > 129 {
            crate::bits::lemma_pow2_le(129, (b - 1) as nat);
            assert(pow2(129) == 2 * pow2(128));
        }
    }
}

} // verus!
