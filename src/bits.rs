//! Mathematical model of bit strings: big-endian values, fixed-width
//! encodings of naturals, and octet alignment.
use vstd::prelude::*;
use vstd::arithmetic::div_mod::lemma_div_denominator;

verus! {

/// Two to the power `n`.
pub open spec fn pow2(n: nat) -> nat
    decreases n,
{
    if n == 0 {
        1
    } else {
        2 * pow2((n - 1) as nat)
    }
}

/// The unsigned value of a big-endian (most significant bit first) bit string.
pub open spec fn uint_of(s: Seq<bool>) -> nat
    decreases s.len(),
{
    if s.len() == 0 {
        0
    } else {
        2 * uint_of(s.drop_last()) + (if s.last() { 1nat } else { 0nat })
    }
}

/// The `n`-bit big-endian encoding of `v` (the low `n` bits of `v`).
pub open spec fn nat_to_bits(v: nat, n: nat) -> Seq<bool>
    decreases n,
{
    if n == 0 {
        Seq::empty()
    } else {
        nat_to_bits(v / 2, (n - 1) as nat).push(v % 2 == 1)
    }
}

/// The first multiple of 8 at or after `pos`.
pub open spec fn aligned(pos: int) -> int {
    if pos % 8 == 0 {
        pos
    } else {
        pos - pos % 8 + 8
    }
}

/// The zero bits that pad a string of `len` bits to an octet boundary.
pub open spec fn padding(len: int) -> Seq<bool> {
    Seq::new((aligned(len) - len) as nat, |i: int| false)
}

/// Bit `k` (0 is the most significant) of the octet `b`.
pub open spec fn octet_bit(b: u8, k: int) -> bool {
    (b >> ((7 - k) as u8)) & 1u8 == 1u8
}

/// The bits of an octet string, each octet most significant bit first.
pub open spec fn bits_of_octets(bytes: Seq<u8>) -> Seq<bool> {
    Seq::new(bytes.len() * 8, |i: int| octet_bit(bytes[i / 8], i % 8))
}

pub proof fn lemma_nat_to_bits_len(v: nat, n: nat)
    ensures
        nat_to_bits(v, n).len() == n,
    decreases n,
{
    if n > 0 {
        lemma_nat_to_bits_len(v / 2, (n - 1) as nat);
    }
}

/// A string of `n` bits holds a value below `2^n`.
pub proof fn lemma_uint_of_bound(s: Seq<bool>)
    ensures
        uint_of(s) < pow2(s.len()),
    decreases s.len(),
{
    if s.len() > 0 {
        lemma_uint_of_bound(s.drop_last());
    }
}

/// Reading back an `n`-bit encoding yields the value, when it fits in `n` bits.
pub proof fn lemma_uint_of_nat_to_bits(v: nat, n: nat)
    requires
        v < pow2(n),
    ensures
        uint_of(nat_to_bits(v, n)) == v,
    decreases n,
{
    if n > 0 {
        let m = (n - 1) as nat;
        lemma_uint_of_nat_to_bits(v / 2, m);
        let s = nat_to_bits(v, n);
        assert(s.drop_last() =~= nat_to_bits(v / 2, m));
    }
}

/// Extending a bit string by one bit doubles its value and adds the bit.
pub proof fn lemma_uint_of_push(s: Seq<bool>, b: bool)
    ensures
        uint_of(s.push(b)) == 2 * uint_of(s) + (if b { 1nat } else { 0nat }),
{
    assert(s.push(b).drop_last() =~= s);
}

/// The powers of two that the codec's widths need.
pub proof fn lemma_pow2_values()
    ensures
        pow2(6) == 64,
        pow2(7) == 128,
        pow2(8) == 256,
        pow2(14) == 16384,
        pow2(16) == 65536,
        pow2(64) == 0x1_0000_0000_0000_0000,
        pow2(127) == 0x8000_0000_0000_0000_0000_0000_0000_0000,
        pow2(128) == 0x1_0000_0000_0000_0000_0000_0000_0000_0000,
{
    assert(pow2(8) == 256) by {
        reveal_with_fuel(pow2, 9);
    }
    lemma_pow2_add(8, 6);
    lemma_pow2_add(8, 8);
    assert(pow2(16) == 65536);
    lemma_pow2_add(16, 16);
    assert(pow2(32) == 0x1_0000_0000);
    lemma_pow2_add(32, 32);
    assert(pow2(64) == 0x1_0000_0000_0000_0000);
    lemma_pow2_add(64, 64);
    assert(pow2(128) == 0x1_0000_0000_0000_0000_0000_0000_0000_0000);
    assert(pow2(7) == 128) by {
        reveal_with_fuel(pow2, 8);
    }
    assert(pow2(6) == 64) by {
        reveal_with_fuel(pow2, 7);
    }
    assert(pow2(128) == 2 * pow2(127));
}

pub proof fn lemma_pow2_add(a: nat, b: nat)
    ensures
        pow2(a + b) == pow2(a) * pow2(b),
    decreases a,
{
    if a > 0 {
        let c = (a - 1) as nat;
        lemma_pow2_add(c, b);
        assert(pow2(a + b) == 2 * pow2(c + b));
        assert(pow2(a) * pow2(b) == 2 * (pow2((a - 1) as nat) * pow2(b))) by (nonlinear_arith)
            requires
                pow2(a) == 2 * pow2((a - 1) as nat),
        ;
    } else {
        assert(a + b == b);
        assert(pow2(a) == 1);
    }
}

pub proof fn lemma_pow2_pos(a: nat)
    ensures
        pow2(a) > 0,
    decreases a,
{
    if a > 0 {
        lemma_pow2_pos((a - 1) as nat);
    }
}

/// Powers of two grow with the exponent.
pub proof fn lemma_pow2_le(a: nat, b: nat)
    requires
        a <= b,
    ensures
        pow2(a) <= pow2(b),
    decreases b,
{
    if a < b {
        lemma_pow2_le(a, (b - 1) as nat);
    }
}

/// Bit `k` of an `n`-bit encoding of `v` is bit `n - 1 - k` of `v`.
pub proof fn lemma_nat_to_bits_index(v: nat, n: nat, k: int)
    requires
        0 <= k < n,
    ensures
        nat_to_bits(v, n)[k] == ((v / pow2((n - 1 - k) as nat)) % 2 == 1),
    decreases n,
{
    let m = (n - 1) as nat;
    lemma_nat_to_bits_len(v / 2, m);
    assert(pow2(0) == 1);
    if k < m {
        lemma_nat_to_bits_index(v / 2, m, k);
        let e = (m - 1 - k) as nat;
        lemma_pow2_pos(e);
        lemma_div_denominator(v as int, 2, pow2(e) as int);
        assert(pow2((n - 1 - k) as nat) == 2 * pow2(e));
        assert(nat_to_bits(v, n)[k] == nat_to_bits(v / 2, m)[k]);
    } else {
        assert(v / pow2(0) == v);
    }
}

/// Encoding the value of a bit string in as many bits gives the string back.
pub proof fn lemma_nat_to_bits_uint_of(s: Seq<bool>)
    ensures
        nat_to_bits(uint_of(s), s.len()) == s,
    decreases s.len(),
{
    if s.len() > 0 {
        let t = s.drop_last();
        lemma_nat_to_bits_uint_of(t);
        let v = uint_of(s);
        assert(v / 2 == uint_of(t));
        assert(s =~= t.push(s.last()));
    }
}

/// The bits of an octet, read most significant first, are its 8-bit encoding.
pub proof fn lemma_octet_bit(b: u8, k: int)
    requires
        0 <= k < 8,
    ensures
        octet_bit(b, k) == nat_to_bits(b as nat, 8)[k],
{
    lemma_nat_to_bits_index(b as nat, 8, k);
    lemma_nat_to_bits_len(b as nat, 8);
    reveal_with_fuel(pow2, 8);
    if k == 0 {
        assert((b >> 7u8) & 1u8 == 1u8 <==> (b / 128) % 2 == 1) by (bit_vector);
    } else if k == 1 {
        assert((b >> 6u8) & 1u8 == 1u8 <==> (b / 64) % 2 == 1) by (bit_vector);
    } else if k == 2 {
        assert((b >> 5u8) & 1u8 == 1u8 <==> (b / 32) % 2 == 1) by (bit_vector);
    } else if k == 3 {
        assert((b >> 4u8) & 1u8 == 1u8 <==> (b / 16) % 2 == 1) by (bit_vector);
    } else if k == 4 {
        assert((b >> 3u8) & 1u8 == 1u8 <==> (b / 8) % 2 == 1) by (bit_vector);
    } else if k == 5 {
        assert((b >> 2u8) & 1u8 == 1u8 <==> (b / 4) % 2 == 1) by (bit_vector);
    } else if k == 6 {
        assert((b >> 1u8) & 1u8 == 1u8 <==> (b / 2) % 2 == 1) by (bit_vector);
    } else {
        assert((b >> 0u8) & 1u8 == 1u8 <==> b % 2 == 1) by (bit_vector);
    }
}

} // verus!
