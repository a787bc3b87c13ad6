//! The bit cursor: an octet buffer addressed bit by bit, with a read offset
//! for decoding and growth at the end for encoding.
use vstd::prelude::*;
use crate::bits::{
    aligned, bits_of_octets, lemma_nat_to_bits_uint_of, lemma_octet_bit, lemma_pow2_le,
    lemma_pow2_values, lemma_uint_of_bound, lemma_uint_of_push, nat_to_bits, octet_bit, padding,
    pow2, uint_of,
};

verus! {

/// Why an encode or decode operation failed.
#[derive(Debug, Clone, Copy, PartialEq, Eq, Structural)]
pub enum AperCodecError {
    /// A read would run past the end of the buffer.
    OutOfBits,
    /// A constraint's range `ub - lb + 1` is not positive.
    InvalidRange,
    /// The multiplier of an unconstrained length determinant is outside `1..=4`.
    InvalidLengthMultiplier,
    /// A constrained length determinant with a range of 65536 or more.
    UnsupportedRange,
    /// A value lies outside its constraint, or does not fit the integer type
    /// that carries it, or has no encoding in the form asked for.
    ValueOutOfRange,
}

/// Reads `n` bits at `pos` as a big-endian unsigned value: the value and the
/// position after them.
pub open spec fn read_spec(bits: Seq<bool>, pos: int, n: int) -> Result<(int, int), AperCodecError> {
    if 0 <= pos && 0 <= n && pos + n <= bits.len() {
        Ok((uint_of(bits.subrange(pos, pos + n)) as int, pos + n))
    } else {
        Err(AperCodecError::OutOfBits)
    }
}

/// Moves `pos` to the next octet boundary, which must lie within the bits.
pub open spec fn align_spec(bits: Seq<bool>, pos: int) -> Result<int, AperCodecError> {
    if aligned(pos) <= bits.len() {
        Ok(aligned(pos))
    } else {
        Err(AperCodecError::OutOfBits)
    }
}

/// A 128-bit unsigned value seen as a two's-complement `i128`.
pub open spec fn wrap_i128(v: int) -> int {
    if v < 0x8000_0000_0000_0000_0000_0000_0000_0000 {
        v
    } else {
        v - 0x1_0000_0000_0000_0000_0000_0000_0000_0000
    }
}

/// The octet buffer seen as bits, with the offset of the next bit to decode.
pub struct AperCodecData {
    bits: Vec<bool>,
    offset: usize,
}

/// `2^n` for `n < 128`.
pub(crate) fn pow2_u128(n: usize) -> (r: u128)
    requires
        n < 128,
    ensures
        r == pow2(n as nat),
{
    proof {
        lemma_pow2_values();
        lemma_pow2_le(n as nat, 127);
    }
    let mut r: u128 = 1;
    let mut i: usize = 0;
    while i < n
        invariant
            i <= n < 128,
            r == pow2(i as nat),
            pow2(n as nat) <= pow2(127),
            pow2(127) == 0x8000_0000_0000_0000_0000_0000_0000_0000,
        decreases n - i,
    {
        proof {
            lemma_pow2_le((i + 1) as nat, n as nat);
        }
        r = r * 2;
        i = i + 1;
    }
    r
}

impl AperCodecData {
    /// All bits of the buffer.
    pub closed spec fn bits(&self) -> Seq<bool> {
        self.bits@
    }

    /// The offset of the next bit to decode.
    pub closed spec fn offset(&self) -> int {
        self.offset as int
    }

    pub open spec fn wf(&self) -> bool {
        0 <= self.offset() <= self.bits().len() <= usize::MAX
    }

    /// A buffer holding `data`, to decode from its first bit.
    pub fn from_slice(data: &[u8]) -> (r: Self)
        requires
            data@.len() * 8 <= usize::MAX,
        ensures
            r.wf(),
            r.bits() == bits_of_octets(data@),
            r.offset() == 0,
    {
        let mut bits: Vec<bool> = Vec::new();
        let mut i: usize = 0;
        while i < data.len()
            invariant
                i <= data@.len(),
                data@.len() * 8 <= usize::MAX,
                bits@ =~= bits_of_octets(data@).subrange(0, i * 8),
            decreases data@.len() - i,
        {
            let b = data[i];
            let mut k: u8 = 0;
            while k < 8
                invariant
                    i < data@.len(),
                    b == data@[i as int],
                    k <= 8,
                    bits@ =~= bits_of_octets(data@).subrange(0, i * 8 + k),
                decreases 8 - k,
            {
                let bit = (b >> (7 - k)) & 1u8 == 1u8;
                proof {
                    let j = i * 8 + k;
                    assert(j / 8 == i && j % 8 == k) by (nonlinear_arith)
                        requires
                            j == i * 8 + k,
                            k < 8,
                    ;
                    assert(bit == octet_bit(data@[j / 8], j % 8));
                }
                bits.push(bit);
                k = k + 1;
            }
            i = i + 1;
        }
        AperCodecData { bits, offset: 0 }
    }

    /// An empty buffer, to encode into.
    pub fn new() -> (r: Self)
        ensures
            r.wf(),
            r.bits() == Seq::<bool>::empty(),
            r.offset() == 0,
    {
        AperCodecData { bits: Vec::new(), offset: 0 }
    }

    /// The buffer as octets, the last one padded with zero bits.
    pub fn into_bytes(&self) -> (r: Vec<u8>)
        ensures
            bits_of_octets(r@) == self.bits() + padding(self.bits().len() as int),
    {
        let ghost padded = self.bits@ + padding(self.bits@.len() as int);
        let len = self.bits.len();
        let n = len / 8 + if len % 8 == 0 { 0 } else { 1 };
        assert(padded.len() == n * 8);
        let mut out: Vec<u8> = Vec::new();
        let mut i: usize = 0;
        while i < n
            invariant
                len == self.bits@.len(),
                padded == self.bits@ + padding(len as int),
                padded.len() == n * 8,
                i <= n,
                out@.len() == i,
                forall|q: int|
                    0 <= q < i ==> #[trigger] out@[q] as nat == uint_of(
                        padded.subrange(q * 8, q * 8 + 8),
                    ),
            decreases n - i,
        {
            let mut acc: u16 = 0;
            let mut k: usize = 0;
            while k < 8
                invariant
                    len == self.bits@.len(),
                    padded == self.bits@ + padding(len as int),
                    padded.len() == n * 8,
                    i < n,
                    k <= 8,
                    acc == uint_of(padded.subrange(i * 8, i * 8 + k)),
                    acc < pow2(k as nat),
                decreases 8 - k,
            {
                assert(i * 8 + k < n * 8) by (nonlinear_arith)
                    requires
                        i < n,
                        k < 8,
                ;
                let j = i * 8 + k;
                let b = if j < len { self.bits[j] } else { false };
                proof {
                    assert(b == padded[j as int]);
                    assert(padded.subrange(i * 8, i * 8 + k + 1) =~= padded.subrange(i * 8, i * 8 + k).push(b));
                    lemma_uint_of_push(padded.subrange(i * 8, i * 8 + k), b);
                    lemma_pow2_le((k + 1) as nat, 8);
                    lemma_pow2_values();
                }
                acc = 2 * acc + if b { 1u16 } else { 0u16 };
                k = k + 1;
            }
            proof {
                lemma_pow2_values();
            }
            out.push(acc as u8);
            i = i + 1;
        }
        proof {
            assert forall|j: int| 0 <= j < padded.len() implies #[trigger] bits_of_octets(out@)[j] == padded[j] by {
                let q = j / 8;
                let s8 = padded.subrange(q * 8, q * 8 + 8);
                lemma_octet_bit(out@[q], j % 8);
                lemma_nat_to_bits_uint_of(s8);
                assert(s8[j % 8] == padded[j]);
            }
            assert(bits_of_octets(out@) =~= padded);
        }
        out
    }

    /// Appends one bit.
    pub fn encode_bool(&mut self, b: bool)
        requires
            old(self).wf(),
        ensures
            final(self).wf(),
            final(self).bits() == old(self).bits().push(b),
            final(self).offset() == old(self).offset(),
    {
        self.bits.push(b);
        assert(self.bits.len() == self.bits@.len());
    }

    /// Appends the low `n` bits of `v`, most significant first.
    pub(crate) fn encode_uint(&mut self, v: u128, n: usize)
        requires
            old(self).wf(),
        ensures
            final(self).wf(),
            final(self).bits() == old(self).bits() + nat_to_bits(v as nat, n as nat),
            final(self).offset() == old(self).offset(),
        decreases n,
    {
        if n > 0 {
            self.encode_uint(v / 2, n - 1);
            self.bits.push(v % 2 == 1);
            proof {
                assert(self.bits.len() == self.bits@.len());
                let ghost a = old(self).bits();
                assert(a + nat_to_bits(v as nat, n as nat) =~= (a + nat_to_bits((v / 2) as nat, (n - 1) as nat)).push(v % 2 == 1));
            }
        } else {
            assert(old(self).bits() + nat_to_bits(v as nat, 0) =~= old(self).bits());
        }
    }

    /// Appends `value` as `n` bits (at most 128), most significant first;
    /// fails, appending nothing, where it needs more than `n` bits.
    pub fn encode_bits_from_integer(&mut self, value: u128, n: usize) -> (r: Result<(), AperCodecError>)
        requires
            old(self).wf(),
            n <= 128,
        ensures
            final(self).wf(),
            final(self).offset() == old(self).offset(),
            value < pow2(n as nat) ==> r is Ok && final(self).bits() == old(self).bits()
                + nat_to_bits(value as nat, n as nat),
            value >= pow2(n as nat) ==> r == Err::<(), AperCodecError>(
                AperCodecError::ValueOutOfRange,
            ) && final(self).bits() == old(self).bits(),
    {
        if n < 128 && value >= pow2_u128(n) {
            return Err(AperCodecError::ValueOutOfRange);
        }
        proof {
            lemma_pow2_values();
        }
        self.encode_uint(value, n);
        Ok(())
    }

    /// Appends zero bits up to the next octet boundary.
    pub fn encode_align(&mut self)
        requires
            old(self).wf(),
        ensures
            final(self).wf(),
            final(self).bits() == old(self).bits() + padding(old(self).bits().len() as int),
            final(self).offset() == old(self).offset(),
    {
        let ghost a = self.bits@;
        let ghost off = self.offset;
        while self.bits.len() % 8 != 0
            invariant
                self.offset == off <= a.len(),
                a.len() <= self.bits@.len() <= aligned(a.len() as int),
                self.bits@ =~= a + Seq::new((self.bits@.len() - a.len()) as nat, |i: int| false),
            decreases aligned(a.len() as int) - self.bits@.len(),
        {
            self.bits.push(false);
        }
        assert(self.bits@ =~= a + padding(a.len() as int));
    }

    /// The offset of the next bit to decode.
    pub fn decode_offset(&self) -> (r: usize)
        ensures
            r == self.offset(),
    {
        self.offset
    }

    /// The number of bits in the buffer.
    pub fn bit_length(&self) -> (r: usize)
        ensures
            r == self.bits().len(),
    {
        self.bits.len()
    }

    /// Decodes one bit.
    pub fn decode_bool(&mut self) -> (r: Result<bool, AperCodecError>)
        requires
            old(self).wf(),
        ensures
            final(self).wf(),
            old(self).offset() <= final(self).offset(),
            final(self).bits() == old(self).bits(),
            old(self).offset() < old(self).bits().len() ==> r == Ok::<bool, AperCodecError>(
                old(self).bits()[old(self).offset()],
            ) && final(self).offset() == old(self).offset() + 1,
            old(self).offset() >= old(self).bits().len() ==> r == Err::<bool, AperCodecError>(
                AperCodecError::OutOfBits,
            ) && final(self).offset() == old(self).offset(),
    {
        if self.offset < self.bits.len() {
            let b = self.bits[self.offset];
            self.offset = self.offset + 1;
            Ok(b)
        } else {
            Err(AperCodecError::OutOfBits)
        }
    }

    /// Decodes `n` bits as a big-endian unsigned value, leaving the offset
    /// where it was if fewer than `n` bits remain.
    pub(crate) fn decode_uint(&mut self, n: usize) -> (r: Result<u128, AperCodecError>)
        requires
            old(self).wf(),
            n <= 128,
        ensures
            final(self).wf(),
            old(self).offset() <= final(self).offset(),
            final(self).bits() == old(self).bits(),
            match read_spec(old(self).bits(), old(self).offset(), n as int) {
                Ok((v, p)) => r == Ok::<u128, AperCodecError>(v as u128) && v < pow2(n as nat)
                    && final(self).offset() == p,
                Err(e) => r == Err::<u128, AperCodecError>(e) && final(self).offset() == old(
                    self,
                ).offset(),
            },
    {
        if n > self.bits.len() - self.offset {
            return Err(AperCodecError::OutOfBits);
        }
        let start = self.offset;
        let ghost bits = self.bits@;
        proof {
            lemma_pow2_values();
        }
        let mut v: u128 = 0;
        let mut i: usize = 0;
        while i < n
            invariant
                self.bits@ == bits,
                start + n <= bits.len() <= usize::MAX,
                i <= n <= 128,
                self.offset == start,
                v == uint_of(bits.subrange(start as int, start + i)),
                v < pow2(i as nat),
                pow2(128) == 0x1_0000_0000_0000_0000_0000_0000_0000_0000,
            decreases n - i,
        {
            let b = self.bits[start + i];
            proof {
                assert(bits.subrange(start as int, start + i + 1) =~= bits.subrange(
                    start as int,
                    start + i,
                ).push(b));
                lemma_uint_of_push(bits.subrange(start as int, start + i), b);
                lemma_uint_of_bound(bits.subrange(start as int, start + i + 1));
                lemma_pow2_le((i + 1) as nat, 128);
            }
            v = 2 * v + if b { 1u128 } else { 0u128 };
            i = i + 1;
        }
        self.offset = start + n;
        Ok(v)
    }

    /// Decodes `n` bits (at most 128) as a big-endian unsigned value; 128 bits
    /// are taken as a two's-complement `i128`. `n == 0` gives 0 and reads nothing.
    pub fn decode_bits_as_integer(&mut self, n: usize) -> (r: Result<i128, AperCodecError>)
        requires
            old(self).wf(),
            n <= 128,
        ensures
            final(self).wf(),
            old(self).offset() <= final(self).offset(),
            final(self).bits() == old(self).bits(),
            match read_spec(old(self).bits(), old(self).offset(), n as int) {
                Ok((v, p)) => r == Ok::<i128, AperCodecError>(wrap_i128(v) as i128)
                    && final(self).offset() == p,
                Err(e) => r == Err::<i128, AperCodecError>(e) && final(self).offset() == old(
                    self,
                ).offset(),
            },
    {
        let v = match self.decode_uint(n) {
            Ok(v) => v,
            Err(e) => return Err(e),
        };
        proof {
            lemma_pow2_le(n as nat, 128);
            lemma_pow2_values();
        }
        if v < 0x8000_0000_0000_0000_0000_0000_0000_0000 {
            Ok(v as i128)
        } else {
            Ok((v - 0x8000_0000_0000_0000_0000_0000_0000_0000) as i128 + i128::MIN)
        }
    }

    /// Moves the offset to the next octet boundary (nothing if it is on one).
    pub fn decode_align(&mut self) -> (r: Result<(), AperCodecError>)
        requires
            old(self).wf(),
        ensures
            final(self).wf(),
            old(self).offset() <= final(self).offset(),
            final(self).bits() == old(self).bits(),
            match align_spec(old(self).bits(), old(self).offset()) {
                Ok(p) => r is Ok && final(self).offset() == p,
                Err(e) => r == Err::<(), AperCodecError>(e) && final(self).offset() == old(
                    self,
                ).offset(),
            },
    {
        let rem = self.offset % 8;
        if rem == 0 {
            return Ok(());
        }
        let skip = 8 - rem;
        if skip > self.bits.len() - self.offset {
            return Err(AperCodecError::OutOfBits);
        }
        self.offset = self.offset + skip;
        Ok(())
    }

    /// Skips `n` bits. Where fewer remain, this fails if `must_succeed` holds
    /// and otherwise stops at the end of the buffer.
    pub fn advance_maybe_err(&mut self, n: usize, must_succeed: bool) -> (r: Result<(), AperCodecError>)
        requires
            old(self).wf(),
        ensures
            final(self).wf(),
            old(self).offset() <= final(self).offset(),
            final(self).bits() == old(self).bits(),
            old(self).offset() + n <= old(self).bits().len() ==> r is Ok && final(self).offset()
                == old(self).offset() + n,
            old(self).offset() + n > old(self).bits().len() && must_succeed ==> r
                == Err::<(), AperCodecError>(AperCodecError::OutOfBits) && final(self).offset()
                == old(self).offset(),
            old(self).offset() + n > old(self).bits().len() && !must_succeed ==> r is Ok
                && final(self).offset() == old(self).bits().len(),
    {
        if n <= self.bits.len() - self.offset {
            self.offset = self.offset + n;
            Ok(())
        } else if must_succeed {
            Err(AperCodecError::OutOfBits)
        } else {
            self.offset = self.bits.len();
            Ok(())
        }
    }
}

} // verus!
