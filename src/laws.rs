//! Laws that relate the encoders to the decoders, and facts about the
//! widths the codec chooses.
use vstd::prelude::*;
use crate::bits::{
    aligned, lemma_nat_to_bits_len, lemma_pow2_le, lemma_pow2_values, lemma_uint_of_nat_to_bits,
    nat_to_bits, padding, pow2,
};
use crate::codec_data::{align_spec, read_spec, AperCodecError};
use crate::model::{
    bits_for_range, constrained_length_spec, constrained_raw_bits, constrained_raw_spec,
    constrained_spec, encode_constrained_spec, encode_normally_small_length_spec,
    encode_unconstrained_length_spec, in_i128, normally_small_length_spec, range_octets,
    unconstrained_length_fits, unconstrained_length_spec, wide_octets, counted_octets_bits,
    counted_octets_spec, encode_semi_constrained_spec, encode_unconstrained_spec, min_octets,
    semi_constrained_spec, unconstrained_spec, encode_constrained_length_spec,
};

verus! {

/// Reading `n` bits where the `n`-bit encoding of `v` stands gives `v`.
proof fn lemma_read_encoded(bits: Seq<bool>, p: int, v: nat, n: nat)
    requires
        0 <= p,
        p + n <= bits.len(),
        bits.subrange(p, p + n) == nat_to_bits(v, n),
        v < pow2(n),
    ensures
        read_spec(bits, p, n as int) == Ok::<(int, int), AperCodecError>((v as int, p + n)),
{
    lemma_uint_of_nat_to_bits(v, n);
}

/// Aligning where padding was appended lands at its end.
proof fn lemma_align_padded(bits: Seq<bool>, len: int)
    requires
        0 <= len,
        len + padding(len).len() <= bits.len(),
    ensures
        align_spec(bits, len) == Ok::<int, AperCodecError>(len + padding(len).len()),
        aligned(len) == len + padding(len).len(),
        aligned(len) % 8 == 0,
{
}

/// The width chosen for a range below 256 is the ceiling of its binary
/// logarithm: the fewest bits whose values number at least `range`.
pub proof fn lemma_bits_for_range_exact(range: int)
    requires
        1 <= range <= 255,
    ensures
        range <= pow2(bits_for_range(range)),
        bits_for_range(range) == 0 || pow2((bits_for_range(range) - 1) as nat) < range,
{
    reveal_with_fuel(pow2, 9);
}

/// Ranges below 256 are encoded without alignment, in exactly
/// `bits_for_range(range)` bits; ranges from 256 up to 65535 are aligned to an
/// octet first, then take 8 bits (range 256) or 16.
pub proof fn lemma_constrained_alignment(len: int, raw: nat, range: int)
    requires
        0 <= len,
        1 <= range < 65536,
    ensures
        range < 256 ==> constrained_raw_bits(len, raw, range) == nat_to_bits(
            raw,
            bits_for_range(range),
        ),
        range == 256 ==> constrained_raw_bits(len, raw, range) == padding(len) + nat_to_bits(
            raw,
            8,
        ),
        256 < range ==> constrained_raw_bits(len, raw, range) == padding(len) + nat_to_bits(
            raw,
            16,
        ),
{
}

/// A constrained offset below the range is read back from behind any prefix
/// and before any suffix.
proof fn lemma_constrained_raw_round_trip(s: Seq<bool>, t: Seq<bool>, raw: nat, range: int)
    requires
        1 <= range < 65536,
        raw < range,
    ensures
        ({
            let e = constrained_raw_bits(s.len() as int, raw, range);
            constrained_raw_spec(s + e + t, s.len() as int, range) == Ok::<
                (int, int),
                AperCodecError,
            >((raw as int, (s.len() + e.len()) as int))
        }),
{
    let e = constrained_raw_bits(s.len() as int, raw, range);
    let bits = s + e + t;
    let l = s.len() as int;
    lemma_pow2_values();
    if range < 256 {
        lemma_bits_for_range_exact(range);
        let n = bits_for_range(range);
        lemma_nat_to_bits_len(raw, n);
        assert(bits.subrange(l, l + n) =~= nat_to_bits(raw, n));
        lemma_read_encoded(bits, l, raw, n);
    } else {
        let n: nat = if range == 256 { 8 } else { 16 };
        lemma_nat_to_bits_len(raw, n);
        let q = l + padding(l).len();
        lemma_align_padded(bits, l);
        assert(bits.subrange(q, q + n) =~= nat_to_bits(raw, n));
        lemma_read_encoded(bits, q, raw, n);
    }
}

/// Round trip of a constrained whole number: for `lb <= value <= ub`, the
/// encoder succeeds, and decoding what it appended, behind any earlier bits
/// and before any later ones, gives `value` back and stops right after it.
pub proof fn lemma_constrained_round_trip(
    s: Seq<bool>,
    t: Seq<bool>,
    value: int,
    lb: int,
    ub: int,
)
    requires
        in_i128(lb),
        in_i128(ub),
        lb <= value <= ub,
    ensures
        encode_constrained_spec(s.len() as int, value, lb, ub) is Ok,
        ({
            let e = encode_constrained_spec(s.len() as int, value, lb, ub)->Ok_0;
            constrained_spec(s + e + t, s.len() as int, lb, ub) == Ok::<(int, int), AperCodecError>(
                (value, (s.len() + e.len()) as int),
            )
        }),
{
    let l = s.len() as int;
    let range = ub - lb + 1;
    let raw = (value - lb) as nat;
    let e = encode_constrained_spec(l, value, lb, ub)->Ok_0;
    let bits = s + e + t;
    lemma_pow2_values();
    if range < 65536 {
        lemma_constrained_raw_round_trip(s, t, raw, range);
    } else {
        lemma_wide_round_trip(s, t, raw, range);
        let k = wide_octets(raw);
        assert((k - 1 + 1) * 8 == 8 * k);
    }
}

/// The parts of a constrained whole number with a range of 65536 or more: the
/// length determinant gives one less than the octet count, and the octets
/// after the alignment give the offset.
proof fn lemma_wide_round_trip(s: Seq<bool>, t: Seq<bool>, raw: nat, range: int)
    requires
        65536 <= range <= pow2(128),
        raw < range,
    ensures
        ({
            let l = s.len() as int;
            let k = wide_octets(raw);
            let nb = range_octets(range);
            let head = constrained_raw_bits(l, (k - 2) as nat, nb as int);
            let e = head + padding(l + head.len()) + nat_to_bits(raw, 8 * k);
            let bits = s + e + t;
            let p1 = l + head.len();
            let p2 = p1 + padding(p1).len();
            &&& 2 <= k <= 16
            &&& constrained_length_spec(bits, l, 1, nb as int) == Ok::<(int, int), AperCodecError>(
                ((k - 1) as int, p1),
            )
            &&& align_spec(bits, p1) == Ok::<int, AperCodecError>(p2)
            &&& read_spec(bits, p2, (8 * k) as int) == Ok::<(int, int), AperCodecError>(
                (raw as int, p2 + 8 * k),
            )
            &&& p2 + 8 * k == l + e.len()
        }),
{
    let l = s.len() as int;
    let k = wide_octets(raw);
    let nb = range_octets(range);
    lemma_pow2_values();
    crate::encode::lemma_wide_octets_fit(raw, range);
    let head = constrained_raw_bits(l, (k - 2) as nat, nb as int);
    let e = head + padding(l + head.len()) + nat_to_bits(raw, 8 * k);
    let bits = s + e + t;
    let rest = padding(l + head.len()) + nat_to_bits(raw, 8 * k) + t;
    assert(bits =~= s + head + rest);
    lemma_constrained_raw_round_trip(s, rest, (k - 2) as nat, nb as int);
    let p1 = l + head.len();
    lemma_nat_to_bits_len(raw, 8 * k);
    lemma_align_padded(bits, p1);
    let p2 = p1 + padding(p1).len();
    assert(bits.subrange(p2, p2 + 8 * k) =~= nat_to_bits(raw, 8 * k));
    assert(raw < pow2(8 * k)) by {
        crate::decode::lemma_bit_len_bound(raw);
        lemma_pow2_le(crate::model::bit_len(raw), 8 * k);
    }
    lemma_read_encoded(bits, p2, raw, 8 * k);
}

/// Round trip of a constrained length determinant: for `lb <= n <= ub` with a
/// range below 65536 the encoder succeeds and decoding gives `n` back.
pub proof fn lemma_constrained_length_round_trip(
    s: Seq<bool>,
    t: Seq<bool>,
    n: int,
    lb: int,
    ub: int,
)
    requires
        0 <= lb <= n <= ub <= usize::MAX,
        ub - lb + 1 < 65536,
    ensures
        encode_constrained_length_spec(s.len() as int, n, lb, ub) is Ok,
        ({
            let e = encode_constrained_length_spec(s.len() as int, n, lb, ub)->Ok_0;
            constrained_length_spec(s + e + t, s.len() as int, lb, ub) == Ok::<
                (int, int),
                AperCodecError,
            >((n, (s.len() + e.len()) as int))
        }),
{
    lemma_constrained_raw_round_trip(s, t, (n - lb) as nat, ub - lb + 1);
}

/// Round trip of an unconstrained length determinant, in its canonical form:
/// every length below `2^21` that the determinant carries by itself (all
/// below 16384, and 16384, 32768, 49152, 65536) is encoded in one octet if it
/// is below 128 or a multiple of 16384, in two otherwise, after the
/// alignment, and decodes back.
pub proof fn lemma_unconstrained_length_round_trip(s: Seq<bool>, t: Seq<bool>, n: int)
    requires
        0 <= n < 0x20_0000,
        unconstrained_length_fits(n),
    ensures
        encode_unconstrained_length_spec(s.len() as int, n) is Ok,
        ({
            let e = encode_unconstrained_length_spec(s.len() as int, n)->Ok_0;
            &&& unconstrained_length_spec(s + e + t, s.len() as int) == Ok::<
                (int, int),
                AperCodecError,
            >((n, (s.len() + e.len()) as int))
            &&& e.len() == padding(s.len() as int).len() + if 128 <= n < 16384 {
                16int
            } else {
                8int
            }
        }),
{
    let l = s.len() as int;
    let e = encode_unconstrained_length_spec(l, n)->Ok_0;
    let bits = s + e + t;
    let p = l + padding(l).len();
    lemma_pow2_values();
    lemma_align_padded(bits, l);
    if n < 128 {
        lemma_nat_to_bits_len(n as nat, 7);
        assert(bits[p] == false);
        assert(bits.subrange(p + 1, p + 8) =~= nat_to_bits(n as nat, 7));
        lemma_read_encoded(bits, p + 1, n as nat, 7);
        assert(e.len() == padding(l).len() + 8);
    } else if n < 16384 {
        lemma_nat_to_bits_len(n as nat, 14);
        assert(bits[p] == true && bits[p + 1] == true);
        assert(bits.subrange(p + 2, p + 16) =~= nat_to_bits(n as nat, 14));
        lemma_read_encoded(bits, p + 2, n as nat, 14);
        assert(e.len() == padding(l).len() + 16);
    } else {
        let m = (n / 16384) as nat;
        lemma_nat_to_bits_len(m, 6);
        assert(bits[p] == true && bits[p + 1] == false);
        assert(bits.subrange(p + 2, p + 8) =~= nat_to_bits(m, 6));
        lemma_read_encoded(bits, p + 2, m, 6);
        assert(1 <= m <= 4 && m * 16384 == n);
        assert(e.len() == padding(l).len() + 8);
        assert(unconstrained_length_spec(bits, l) == Ok::<(int, int), AperCodecError>((n, p + 8)));
    }
}

/// A normally-small length determinant takes the small form, a zero bit and
/// six bits, exactly for `1..=64`, and the large form, a one bit and an
/// unconstrained length determinant, for the lengths above 64 that such a
/// determinant carries; either way it decodes back.
pub proof fn lemma_normally_small_round_trip(s: Seq<bool>, t: Seq<bool>, n: int)
    requires
        1 <= n,
        n <= 64 || unconstrained_length_fits(n),
    ensures
        encode_normally_small_length_spec(s.len() as int, n) is Ok,
        ({
            let e = encode_normally_small_length_spec(s.len() as int, n)->Ok_0;
            &&& normally_small_length_spec(s + e + t, s.len() as int) == Ok::<
                (int, int),
                AperCodecError,
            >((n, (s.len() + e.len()) as int))
            &&& e[0] == (n > 64)
            &&& n <= 64 ==> e.len() == 7
        }),
{
    let l = s.len() as int;
    let e = encode_normally_small_length_spec(l, n)->Ok_0;
    let bits = s + e + t;
    lemma_pow2_values();
    if n <= 64 {
        lemma_nat_to_bits_len((n - 1) as nat, 6);
        assert(bits[l] == false);
        assert(bits.subrange(l + 1, l + 7) =~= nat_to_bits((n - 1) as nat, 6));
        lemma_read_encoded(bits, l + 1, (n - 1) as nat, 6);
    } else {
        let s1 = s.push(true);
        let u = encode_unconstrained_length_spec(l + 1, n)->Ok_0;
        lemma_unconstrained_length_round_trip(s1, t, n);
        assert(bits =~= s1 + u + t);
    }
}

/// A value in `k` octets (at most 16) after their count reads back.
proof fn lemma_counted_octets_round_trip(s: Seq<bool>, t: Seq<bool>, raw: nat, k: nat)
    requires
        1 <= k <= 16,
        raw < pow2(8 * k),
    ensures
        ({
            let e = counted_octets_bits(s.len() as int, raw, k);
            counted_octets_spec(s + e + t, s.len() as int) == Ok::<(int, int), AperCodecError>(
                (raw as int, (s.len() + e.len()) as int),
            )
        }),
{
    let l = s.len() as int;
    let e = counted_octets_bits(l, raw, k);
    let v = nat_to_bits(raw, 8 * k);
    let head = encode_unconstrained_length_spec(l, k as int)->Ok_0;
    lemma_unconstrained_length_round_trip(s, v + t, k as int);
    assert(e =~= head + v);
    let bits = s + e + t;
    assert(bits =~= s + head + (v + t));
    let p = l + head.len();
    lemma_nat_to_bits_len(raw, 8 * k);
    assert(bits.subrange(p, p + 8 * k) =~= v);
    lemma_read_encoded(bits, p, raw, 8 * k);
}

/// The fewest octets that hold a value below `2^128` number at most 16, and
/// hold it.
proof fn lemma_min_octets_fit(raw: nat)
    requires
        raw < pow2(128),
    ensures
        1 <= min_octets(raw) <= 16,
        raw < pow2(8 * min_octets(raw)),
{
    lemma_pow2_values();
    crate::decode::lemma_bit_len_bound(raw);
    lemma_pow2_le(crate::model::bit_len(raw), 8 * min_octets(raw));
}

/// Round trip of a semi-constrained whole number: for `value >= lb` the
/// encoder succeeds and decoding gives `value` back.
pub proof fn lemma_semi_constrained_round_trip(s: Seq<bool>, t: Seq<bool>, value: int, lb: int)
    requires
        in_i128(lb),
        in_i128(value),
        lb <= value,
    ensures
        encode_semi_constrained_spec(s.len() as int, value, lb) is Ok,
        ({
            let e = encode_semi_constrained_spec(s.len() as int, value, lb)->Ok_0;
            semi_constrained_spec(s + e + t, s.len() as int, lb) == Ok::<(int, int), AperCodecError>(
                (value, (s.len() + e.len()) as int),
            )
        }),
{
    lemma_pow2_values();
    let raw = (value - lb) as nat;
    lemma_min_octets_fit(raw);
    lemma_counted_octets_round_trip(s, t, raw, min_octets(raw));
}

/// Round trip of an unconstrained whole number: every `i128` decodes back.
pub proof fn lemma_unconstrained_round_trip(s: Seq<bool>, t: Seq<bool>, value: int)
    requires
        in_i128(value),
    ensures
        ({
            let e = encode_unconstrained_spec(s.len() as int, value);
            unconstrained_spec(s + e + t, s.len() as int) == Ok::<(int, int), AperCodecError>(
                (value, (s.len() + e.len()) as int),
            )
        }),
{
    lemma_pow2_values();
    if value >= 0 {
        lemma_min_octets_fit(value as nat);
        lemma_counted_octets_round_trip(s, t, value as nat, min_octets(value as nat));
    } else {
        lemma_counted_octets_round_trip(s, t, (value + pow2(128)) as nat, 16);
    }
}

/// An unconstrained length determinant whose multiplier field (after the
/// bits `1`, `0`) lies outside `1..=4` is rejected.
pub proof fn lemma_invalid_multiplier(bits: Seq<bool>, pos: int)
    requires
        0 <= pos,
        aligned(pos) + 8 <= bits.len(),
        bits[aligned(pos)],
        !bits[aligned(pos) + 1],
        ({
            let m = read_spec(bits, aligned(pos) + 2, 6)->Ok_0.0;
            m < 1 || m > 4
        }),
    ensures
        unconstrained_length_spec(bits, pos) == Err::<(int, int), AperCodecError>(
            AperCodecError::InvalidLengthMultiplier,
        ),
{
}

} // verus!
