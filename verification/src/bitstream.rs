//! Bit-level reader and writer for codec bitstreams.
//!
//! Bits are read and written most significant bit first. The reader and the
//! writer are modelled by a sequence of booleans: the reader by the bits of
//! its input and a bit position, the writer by the bits written so far.
//! Exp-Golomb codes `ue(v)` and `se(v)` are supported.

use vstd::prelude::*;
use vstd::arithmetic::power2::pow2;
use crate::text::{digits, digits_text, push_digits};

verus! {

/// Errors of the bit reader.
#[derive(Debug, Clone, Copy, PartialEq, Eq, Structural)]
pub enum Error {
    /// `DataTooShort(wanted, available)`: fewer bits remain than requested.
    DataTooShort(usize, usize),
    /// An Exp-Golomb code has 32 or more leading zero bits, so its value does
    /// not fit in 32 bits.
    ExpGolombTooLong,
}
impl Error {
    /// The text of the error.
    pub open spec fn text(self) -> Seq<char> {
        match self {
            Error::DataTooShort(a, b) => "Data Too Short: expected at least "@ + digits(a as nat, 10, 1) + " bytes, got "@
                + digits(b as nat, 10, 1) + " bytes"@,
            Error::ExpGolombTooLong => "Exp-Golomb code too long"@,
        }
    }

    /// A human-readable description of the error.
    pub fn message(&self) -> (r: String)
        ensures
            r@ == self.text(),
    {
        match self {
            Error::DataTooShort(a, b) => {
                let mut s = digits_text("Data Too Short: expected at least ", *a as u64, 10, 1);
                s.append(" bytes, got ");
                push_digits(&mut s, *b as u64, 10, 1);
                s.append(" bytes");
                s
            },
            Error::ExpGolombTooLong => String::from_str("Exp-Golomb code too long"),
        }
    }
}


/// Bit `k` (0 = most significant) of byte `b`.
pub open spec fn byte_bit(b: u8, k: int) -> bool {
    ((b >> ((7 - k) as u8)) & 1u8) == 1u8
}

/// The bits of a byte sequence, most significant bit of each byte first.
pub open spec fn bytes_bits(d: Seq<u8>) -> Seq<bool> {
    Seq::new(d.len() * 8, |i: int| byte_bit(d[i / 8], i % 8))
}

/// The unsigned number whose binary digits (most significant first) are `s`.
pub open spec fn seq_val(s: Seq<bool>) -> nat
    decreases s.len(),
{
    if s.len() == 0 {
        0
    } else {
        2 * seq_val(s.drop_last()) + (if s.last() { 1nat } else { 0nat })
    }
}

/// The low `n` bits of `v`, most significant first (`n <= 32`).
pub open spec fn u32_bits(v: u32, n: nat) -> Seq<bool> {
    Seq::new(n, |j: int| ((v >> ((n - 1 - j) as u32)) & 1u32) == 1u32)
}

/// `n` zero bits.
pub open spec fn zeros(n: nat) -> Seq<bool> {
    Seq::new(n, |j: int| false)
}

/// Number of binary digits of `c` (0 for 0).
pub open spec fn bit_len(c: nat) -> nat
    decreases c,
{
    if c == 0 {
        0
    } else {
        1 + bit_len(c / 2)
    }
}

/// The Exp-Golomb code `ue(v)` of `v` (`v < u32::MAX`): as many zero bits
/// as `v + 1` has binary digits minus one, followed by the digits of `v + 1`.
pub open spec fn ue_bits(v: u32) -> Seq<bool> {
    let code = v + 1;
    let k = (bit_len(code as nat) - 1) as nat;
    zeros(k) + u32_bits(code as u32, k + 1)
}

/// The `ue(v)` code number of a signed value: 0, 1, -1, 2, -2, ... map to 0, 1, 2, 3, 4, ...
pub open spec fn se_code(v: i32) -> u32 {
    if v <= 0 {
        (-2 * v) as u32
    } else {
        (2 * v - 1) as u32
    }
}

/// The Exp-Golomb code `se(v)` of `v` (`v > i32::MIN`).
pub open spec fn se_bits(v: i32) -> Seq<bool> {
    ue_bits(se_code(v))
}

/// H.264 9.1.1: the code numbers of signed values run 0, 1, -1, 2, -2,
/// ...: a positive value `v` has the odd code number `2v - 1`, any other
/// value `v` the even code number `-2v`; an odd code number `c` reads as
/// `(c + 1) / 2` (all but the largest, whose value does not fit 32 bits),
/// an even one as `-(c / 2)`.
pub proof fn lemma_se_mapping(v: i32, c: u32)
    ensures
        v > i32::MIN ==> (se_code(v) % 2 == 1 <==> v > 0),
        v > 0 ==> se_code(v) == 2 * v - 1,
        i32::MIN < v <= 0 ==> se_code(v) == -2 * v,
        c % 2 == 1 && c < u32::MAX ==> se_value(c) == (c + 1) / 2,
        c % 2 == 0 ==> se_value(c) == -((c / 2) as int),
{
}

/// The signed value of an `se(v)` code number.
pub open spec fn se_value(c: u32) -> i32 {
    if c % 2 == 0 {
        (-((c / 2) as int)) as i32
    } else {
        ((c / 2) + 1) as i32
    }
}

/// Number of consecutive zero bits of `s` starting at `p`.
pub open spec fn zero_count(s: Seq<bool>, p: nat) -> nat
    decreases s.len() - p,
{
    if p >= s.len() {
        0
    } else if s[p as int] {
        0
    } else {
        1 + zero_count(s, p + 1)
    }
}

/// Reading `n` bits from `s` at bit position `p`: the value (truncated to 32
/// bits) and the next position, or an error when fewer than `n` bits remain.
pub open spec fn read_bits_spec(s: Seq<bool>, p: nat, n: nat) -> Result<(u32, nat), Error> {
    if p + n > s.len() {
        Err(Error::DataTooShort(n as usize, (s.len() - p) as usize))
    } else {
        Ok(((seq_val(s.subrange(p as int, (p + n) as int)) % 0x1_0000_0000) as u32, p + n))
    }
}

/// Reading a `ue(v)` code from `s` at bit position `p`.
pub open spec fn read_ue_spec(s: Seq<bool>, p: nat) -> Result<(u32, nat), Error> {
    let z = zero_count(s, p);
    if z >= 32 {
        Err(Error::ExpGolombTooLong)
    } else if p + z >= s.len() {
        Err(Error::DataTooShort(1, 0))
    } else if z == 0 {
        Ok((0, p + 1))
    } else {
        let q = p + z + 1;
        if q + z > s.len() {
            Err(Error::DataTooShort(z as usize, (s.len() - q) as usize))
        } else {
            Ok(
                (
                    (pow2(z) - 1 + seq_val(s.subrange(q as int, (q + z) as int))) as u32,
                    q + z,
                ),
            )
        }
    }
}

/// Reading an `se(v)` code from `s` at bit position `p`.
pub open spec fn read_se_spec(s: Seq<bool>, p: nat) -> Result<(i32, nat), Error> {
    match read_ue_spec(s, p) {
        Ok((c, q)) => Ok((se_value(c), q)),
        Err(e) => Err(e),
    }
}


/// Bit reader over a byte slice.
pub struct BitstreamReader<'a> {
    data: &'a [u8],
    pos: usize,
}

impl<'a> BitstreamReader<'a> {
    #[verifier::type_invariant]
    spec fn inv(self) -> bool {
        &&& self.data@.len() * 8 <= usize::MAX
        &&& self.pos <= self.data@.len() * 8
    }

    /// The bits of the input.
    pub open spec fn bits(&self) -> Seq<bool> {
        bytes_bits(self.bytes())
    }

    /// The bits read so far.
    pub open spec fn consumed(&self) -> Seq<bool> {
        self.bits().subrange(0, self.pos() as int)
    }

    /// The input bytes.
    pub closed spec fn bytes(&self) -> Seq<u8> {
        self.data@
    }

    /// The current bit position.
    pub closed spec fn pos(&self) -> nat {
        self.pos as nat
    }

    /// Create a new reader at the first bit of `data`.
    pub fn new(data: &'a [u8]) -> (r: Self)
        requires
            data@.len() * 8 <= usize::MAX,
        ensures
            r.bytes() == data@,
            r.bits() == bytes_bits(data@),
            r.pos() == 0,
    {
        BitstreamReader { data, pos: 0 }
    }

    /// Index of the byte holding the next bit.
    pub fn byte_offset(&self) -> (r: usize)
        ensures
            r == self.pos() / 8,
    {
        self.pos / 8
    }

    /// Position of the next bit within its byte (0 = most significant).
    pub fn bit_offset(&self) -> (r: u8)
        ensures
            r == self.pos() % 8,
    {
        (self.pos % 8) as u8
    }

    /// Number of bits left to read.
    pub fn remaining_bits(&self) -> (r: usize)
        ensures
            r == self.bits().len() - self.pos(),
    {
        proof {
            use_type_invariant(self);
        }
        self.data.len() * 8 - self.pos
    }

    /// Read one bit at the current position and advance (a bit must remain).
    fn next_bit(&mut self) -> (b: bool)
        requires
            old(self).pos() < old(self).bits().len(),
        ensures
            final(self).bytes() == old(self).bytes(),
            final(self).pos() == old(self).pos() + 1,
            b == old(self).bits()[old(self).pos() as int],
    {
        proof {
            use_type_invariant(&*self);
        }
        let byte = self.data[self.pos / 8];
        let shift = (7 - self.pos % 8) as u8;
        let b = ((byte >> shift) & 1u8) == 1u8;
        self.pos = self.pos + 1;
        b
    }

    /// Read `n` bits and return them as a number (most significant bit
    /// first; of more than 32 bits only the last 32 are kept).
    pub fn read_bits(&mut self, n: u8) -> (r: Result<u32, Error>)
        ensures
            final(self).bytes() == old(self).bytes(),
            match read_bits_spec(old(self).bits(), old(self).pos(), n as nat) {
                Ok((v, q)) => r == Ok::<u32, Error>(v) && final(self).pos() == q,
                Err(e) => r == Err::<u32, Error>(e) && final(self).pos() == old(self).pos(),
            },
    {
        proof {
            use_type_invariant(&*self);
        }
        let remaining = self.remaining_bits();
        if (n as usize) > remaining {
            return Err(Error::DataTooShort(n as usize, remaining));
        }
        let ghost s = self.bits();
        let ghost p0 = self.pos();
        let mut value: u32 = 0;
        let mut i: u8 = 0;
        while i < n
            invariant
                i <= n,
                self.bytes() == old(self).bytes(),
                s == self.bits(),
                p0 + n <= s.len(),
                self.pos() == p0 + i,
                value as nat == seq_val(s.subrange(p0 as int, (p0 + i) as int)) % 0x1_0000_0000,
            decreases n - i,
        {
            let b = self.next_bit();
            let bit: u32 = if b { 1 } else { 0 };
            proof {
                let sub = s.subrange(p0 as int, (p0 + i + 1) as int);
                assert(sub.drop_last() =~= s.subrange(p0 as int, (p0 + i) as int));
                assert(sub.last() == b);
                lemma_shift_in_bit(value, bit);
                lemma_mod_shift(seq_val(s.subrange(p0 as int, (p0 + i) as int)), bit as nat);
            }
            value = (value << 1u32) | bit;
            i = i + 1;
        }
        Ok(value)
    }

    /// Read a single bit as a boolean.
    pub fn read_bit(&mut self) -> (r: Result<bool, Error>)
        ensures
            final(self).bytes() == old(self).bytes(),
            old(self).pos() < old(self).bits().len() ==> r == Ok::<bool, Error>(
                old(self).bits()[old(self).pos() as int],
            ) && final(self).pos() == old(self).pos() + 1,
            old(self).pos() >= old(self).bits().len() ==> r == Err::<bool, Error>(
                Error::DataTooShort(1, 0),
            ) && final(self).pos() == old(self).pos(),
    {
        proof {
            use_type_invariant(&*self);
        }
        if self.remaining_bits() == 0 {
            return Err(Error::DataTooShort(1, 0));
        }
        Ok(self.next_bit())
    }

    /// Read an unsigned Exp-Golomb coded value `ue(v)`: `k` zero bits, a one
    /// bit, then `k` more bits `x`; the value is `2^k - 1 + x`.
    pub fn read_ue(&mut self) -> (r: Result<u32, Error>)
        ensures
            final(self).bytes() == old(self).bytes(),
            match read_ue_spec(old(self).bits(), old(self).pos()) {
                Ok((v, q)) => r == Ok::<u32, Error>(v) && final(self).pos() == q,
                Err(e) => r == Err::<u32, Error>(e),
            },
    {
        proof {
            use_type_invariant(&*self);
        }
        let ghost s = self.bits();
        let ghost p0 = self.pos();
        let mut leading_zeros: u32 = 0;
        loop
            invariant_except_break
                self.pos() == p0 + leading_zeros,
                zero_count(s, p0) == leading_zeros + zero_count(s, (p0 + leading_zeros) as nat),
            invariant
                self.bytes() == old(self).bytes(),
                s == self.bits(),
                s == old(self).bits(),
                p0 == old(self).pos(),
                leading_zeros <= 32,
            ensures
                leading_zeros < 32,
                self.pos() == p0 + leading_zeros + 1,
                p0 + leading_zeros < s.len(),
                zero_count(s, p0) == leading_zeros,
            decreases 32 - leading_zeros,
        {
            if leading_zeros == 32 {
                return Err(Error::ExpGolombTooLong);
            }
            proof {
                use_type_invariant(&*self);
            }
            let b = self.read_bit();
            match b {
                Err(e) => {
                    return Err(e);
                },
                Ok(bit) => {
                    if bit {
                        break ;
                    }
                    leading_zeros = leading_zeros + 1;
                },
            }
        }
        if leading_zeros == 0 {
            return Ok(0);
        }
        let ghost q = self.pos();
        let rest = self.read_bits(leading_zeros as u8);
        match rest {
            Err(e) => Err(e),
            Ok(x) => {
                proof {
                    let sub = s.subrange(q as int, (q + leading_zeros) as int);
                    lemma_seq_val_bound(sub);
                    vstd::arithmetic::power2::lemma2_to64();
                    vstd::arithmetic::power2::lemma2_to64_rest();
                    vstd::arithmetic::power2::lemma_pow2_strictly_increases(
                        leading_zeros as nat,
                        32,
                    );
                    vstd::arithmetic::div_mod::lemma_small_mod(
                        seq_val(sub),
                        0x1_0000_0000,
                    );
                    vstd::bits::lemma_u32_pow2_no_overflow(leading_zeros as nat);
                    vstd::bits::lemma_u32_shl_is_mul(1u32, leading_zeros);
                    vstd::arithmetic::power2::lemma_pow2_strictly_increases(
                        leading_zeros as nat,
                        32,
                    );
                    vstd::arithmetic::power2::lemma_pow2_adds(leading_zeros as nat, 1);
                    vstd::arithmetic::power2::lemma2_to64();
                    if leading_zeros < 31 {
                        vstd::arithmetic::power2::lemma_pow2_strictly_increases(
                            (leading_zeros + 1) as nat,
                            32,
                        );
                    }
                }
                let base: u32 = (1u32 << leading_zeros) - 1;
                Ok(base + x)
            },
        }
    }

    /// Read a signed Exp-Golomb coded value `se(v)`.
    pub fn read_se(&mut self) -> (r: Result<i32, Error>)
        ensures
            final(self).bytes() == old(self).bytes(),
            match read_se_spec(old(self).bits(), old(self).pos()) {
                Ok((v, q)) => r == Ok::<i32, Error>(v) && final(self).pos() == q,
                Err(e) => r == Err::<i32, Error>(e),
            },
    {
        let code = match self.read_ue() {
            Ok(c) => c,
            Err(e) => return Err(e),
        };
        if code % 2 == 0 {
            Ok(-((code / 2) as i32))
        } else {
            Ok(((code / 2) + 1) as i32)
        }
    }

    /// Read all remaining bytes. When the position is inside a byte, the
    /// already-read high bits of that byte are masked to zero. Returns the
    /// bytes and the bit offset the reader was at; the reader ends at the end
    /// of its input.
    pub fn read_remaining_bytes(&mut self) -> (r: (Vec<u8>, u8))
        ensures
            final(self).bytes() == old(self).bytes(),
            final(self).pos() == old(self).bits().len(),
            r.1 == old(self).pos() % 8,
            r.0@ == remaining_bytes_spec(old(self).bytes(), old(self).pos()),
    {
        proof {
            use_type_invariant(&*self);
        }
        let mut remaining: Vec<u8> = Vec::new();
        let mut byte_offset = self.pos / 8;
        let bit_offset = (self.pos % 8) as u8;
        if bit_offset != 0 {
            let bits_left: u8 = 8 - bit_offset;
            let mask: u8 = low_mask(bits_left);
            let partial = self.data[byte_offset] & mask;
            remaining.push(partial);
            byte_offset = byte_offset + 1;
        }
        let ghost start = byte_offset;
        let ghost prefix = remaining@;
        while byte_offset < self.data.len()
            invariant
                start <= byte_offset <= self.data@.len(),
                remaining@ == prefix + self.data@.subrange(start as int, byte_offset as int),
            decreases self.data@.len() - byte_offset,
        {
            remaining.push(self.data[byte_offset]);
            byte_offset = byte_offset + 1;
        }
        self.pos = self.data.len() * 8;
        (remaining, bit_offset)
    }

    /// Whether RBSP data remains before the trailing stop bit, that is,
    /// whether some bit is left to read before the last one bit of the input
    /// (a last byte of zero counts as data).
    pub fn has_more_rbsp_data(&self) -> (r: bool)
        ensures
            r == has_more_rbsp_data_spec(self.bytes(), self.pos()),
    {
        proof {
            use_type_invariant(self);
        }
        let remaining = self.remaining_bits();
        if remaining == 0 {
            return false;
        }
        let last_byte = self.data[self.data.len() - 1];
        if last_byte == 0 {
            return true;
        }
        proof {
            vstd::std_specs::bits::axiom_u8_trailing_zeros(last_byte);
        }
        let trailing_zeros = last_byte.trailing_zeros() as usize;
        let stop_bit_pos = (self.data.len() - 1) * 8 + (7 - trailing_zeros);
        stop_bit_pos > self.pos
    }

    /// Read `n` whole bytes (8 bits each, from the current bit position).
    pub fn read_slice(&mut self, n: usize) -> (r: Result<Vec<u8>, Error>)
        ensures
            final(self).bytes() == old(self).bytes(),
            n * 8 > old(self).bits().len() - old(self).pos() ==> r == Err::<Vec<u8>, Error>(
                Error::DataTooShort(n, (old(self).bits().len() - old(self).pos()) as usize / 8),
            ) && final(self).pos() == old(self).pos(),
            n * 8 <= old(self).bits().len() - old(self).pos() ==> r is Ok && bytes_bits(
                r->Ok_0@,
            ) == old(self).bits().subrange(
                old(self).pos() as int,
                old(self).pos() + n * 8,
            ) && r->Ok_0@.len() == n && final(self).pos() == old(self).pos() + n * 8,
    {
        proof {
            use_type_invariant(&*self);
        }
        let remaining = self.remaining_bits();
        if n > remaining / 8 {
            return Err(Error::DataTooShort(n, remaining / 8));
        }
        let ghost s = self.bits();
        let ghost p0 = self.pos();
        let mut out: Vec<u8> = Vec::new();
        let mut i: usize = 0;
        while i < n
            invariant
                i <= n,
                n * 8 <= s.len() - p0,
                s == self.bits(),
                self.bytes() == old(self).bytes(),
                self.pos() == p0 + i * 8,
                out@.len() == i,
                bytes_bits(out@) == s.subrange(p0 as int, p0 + i * 8),
            decreases n - i,
        {
            let ghost before = out@;
            let v = self.read_bits(8);
            let b = match v {
                Ok(x) => x,
                Err(_) => {
                    return Err(Error::DataTooShort(n, 0));
                },
            };
            proof {
                let sub = s.subrange(p0 + i * 8, p0 + i * 8 + 8);
                lemma_seq_val_bound(sub);
                vstd::arithmetic::power2::lemma2_to64();
                vstd::arithmetic::div_mod::lemma_small_mod(seq_val(sub), 0x1_0000_0000);
                lemma_byte_of_bits(sub);
            }
            out.push(b as u8);
            proof {
                lemma_bytes_bits_push(before, b as u8);
                assert(s.subrange(p0 as int, p0 + (i + 1) * 8) =~= s.subrange(
                    p0 as int,
                    p0 + i * 8,
                ) + s.subrange(p0 + i * 8, p0 + i * 8 + 8));
            }
            i = i + 1;
        }
        Ok(out)
    }

    /// Skip up to `n` bits; returns the number of bits skipped.
    pub fn skip_bits(&mut self, n: usize) -> (r: usize)
        ensures
            final(self).bytes() == old(self).bytes(),
            r == (if n <= old(self).bits().len() - old(self).pos() {
                n as int
            } else {
                old(self).bits().len() - old(self).pos()
            }),
            final(self).pos() == old(self).pos() + r,
    {
        proof {
            use_type_invariant(&*self);
        }
        let remaining = self.remaining_bits();
        let actual = if n < remaining { n } else { remaining };
        self.pos = self.pos + actual;
        actual
    }
}

/// A number of `n` binary digits is less than `2^n`.
pub proof fn lemma_seq_val_bound(s: Seq<bool>)
    ensures
        seq_val(s) < pow2(s.len()),
    decreases s.len(),
{
    if s.len() > 0 {
        lemma_seq_val_bound(s.drop_last());
        vstd::arithmetic::power2::lemma_pow2_unfold(s.len());
    } else {
        vstd::arithmetic::power2::lemma2_to64();
    }
}

/// Bit writer producing a byte vector.
pub struct BitstreamWriter {
    data: Vec<u8>,
    current_byte: u8,
    bit_offset: u8,
}

/// Number of zero bits that pad `n` bits to a whole number of bytes.
pub open spec fn pad_len(n: nat) -> nat {
    if n % 8 == 0 {
        0
    } else {
        (8 - n % 8) as nat
    }
}

impl BitstreamWriter {
    #[verifier::type_invariant]
    spec fn inv(self) -> bool {
        &&& self.bit_offset < 8
        &&& self.current_byte & (0xFFu8 >> self.bit_offset) == 0
    }

    /// The bits written so far.
    pub closed spec fn bits(&self) -> Seq<bool> {
        bytes_bits(self.data@) + Seq::new(
            self.bit_offset as nat,
            |k: int| byte_bit(self.current_byte, k),
        )
    }

    /// Create a new empty writer.
    pub fn new() -> (w: Self)
        ensures
            w.bits() == Seq::<bool>::empty(),
    {
        assert(0u8 & (0xFFu8 >> 0u8) == 0) by (bit_vector);
        let w = BitstreamWriter { data: Vec::new(), current_byte: 0, bit_offset: 0 };
        assert(w.bits() =~= Seq::<bool>::empty());
        w
    }

    /// Append one bit (`bit` is 0 or 1).
    fn push_bit(&mut self, bit: u8)
        requires
            bit <= 1,
        ensures
            final(self).bits() == old(self).bits().push(bit == 1),
    {
        proof {
            use_type_invariant(&*self);
        }
        let cb = self.current_byte;
        let bo = self.bit_offset;
        let ncb = cb | (bit << (7 - bo));
        proof {
            lemma_set_bit(cb, bit, bo);
        }
        let ghost part = Seq::new(bo as nat, |k: int| byte_bit(cb, k));
        let ghost npart = Seq::new((bo + 1) as nat, |k: int| byte_bit(ncb, k));
        proof {
            assert forall|k: int| 0 <= k < bo + 1 implies npart[k] == part.push(bit == 1)[k] by {
                lemma_set_bit_at(cb, bit, bo, k as u8);
            }
            assert(npart =~= part.push(bit == 1));
        }
        if bo == 7 {
            let ghost d = self.data@;
            assert(0u8 & (0xFFu8 >> 7u8) == 0 && 0u8 & (0xFFu8 >> 0u8) == 0) by (bit_vector);
            let mut bytes: Vec<u8> = Vec::new();
            std::mem::swap(&mut bytes, &mut self.data);
            bytes.push(ncb);
            self.current_byte = 0;
            self.bit_offset = 0;
            std::mem::swap(&mut bytes, &mut self.data);
            self.bit_offset = 0;
            proof {
                lemma_bytes_bits_push(d, ncb);
                assert(self.bits() =~= bytes_bits(d) + npart);
                assert(old(self).bits() =~= bytes_bits(d) + part);
            }
        } else {
            self.bit_offset = bo + 1;
            self.current_byte = ncb;
            proof {
                assert(self.bits() =~= bytes_bits(self.data@) + npart);
                assert(old(self).bits() =~= bytes_bits(self.data@) + part);
            }
        }
    }

    /// Write the low `n` bits of `value`, most significant first.
    pub fn write_bits(&mut self, value: u32, n: u8)
        requires
            n <= 32,
        ensures
            final(self).bits() == old(self).bits() + u32_bits(value, n as nat),
    {
        let ghost target = u32_bits(value, n as nat);
        let mut i: u8 = n;
        while i > 0
            invariant
                i <= n <= 32,
                target == u32_bits(value, n as nat),
                self.bits() == old(self).bits() + target.subrange(0, n - i),
            decreases i,
        {
            i = i - 1;
            let bit = ((value >> (i as u32)) & 1u32) as u8;
            proof {
                assert(((value >> (i as u32)) & 1u32) <= 1u32) by (bit_vector);
            }
            let ghost before = self.bits();
            self.push_bit(bit);
            proof {
                assert(target[n - 1 - i] == (bit == 1));
                assert(target.subrange(0, n - i) =~= target.subrange(0, n - i - 1).push(
                    bit == 1,
                ));
                assert(self.bits() =~= old(self).bits() + target.subrange(0, n - i));
            }
        }
        assert(target.subrange(0, n as int) =~= target);
    }

    /// Write a single bit from a boolean.
    pub fn write_bool(&mut self, value: bool)
        ensures
            final(self).bits() == old(self).bits().push(value),
    {
        let v: u32 = if value { 1 } else { 0 };
        self.write_bits(v, 1);
        proof {
            assert((v >> 0u32) & 1u32 == v) by (bit_vector)
                requires v <= 1;
            assert(u32_bits(v, 1) =~= seq![value]);
        }
    }

    /// Write an unsigned Exp-Golomb coded value `ue(v)`.
    pub fn write_ue(&mut self, value: u32)
        requires
            value < u32::MAX,
        ensures
            final(self).bits() == old(self).bits() + ue_bits(value),
    {
        let code = value + 1;
        let mut bits: u8 = 0;
        let mut c: u32 = code;
        proof {
            vstd::arithmetic::power2::lemma2_to64();
        }
        while c > 0
            invariant
                bit_len(code as nat) == bits + bit_len(c as nat),
                c as nat * pow2(bits as nat) <= code,
                bits <= 32,
            decreases c,
        {
            proof {
                vstd::arithmetic::power2::lemma_pow2_unfold((bits + 1) as nat);
                assert((c / 2) as nat * pow2((bits + 1) as nat) <= c as nat * pow2(bits as nat)) by (nonlinear_arith)
                    requires pow2((bits + 1) as nat) == 2 * pow2(bits as nat), c > 0;
                vstd::arithmetic::power2::lemma2_to64();
                vstd::arithmetic::power2::lemma2_to64_rest();
                if bits >= 32 {
                    vstd::arithmetic::power2::lemma_pow2_strictly_increases(32, (bits + 1) as nat);
                    assert(c as nat * pow2(bits as nat) >= pow2(bits as nat)) by (nonlinear_arith)
                        requires c >= 1;
                    if bits > 32 {
                        vstd::arithmetic::power2::lemma_pow2_strictly_increases(32, bits as nat);
                    }
                }
            }
            c = c / 2;
            bits = bits + 1;
        }
        proof {
            assert(bit_len(0) == 0);
            lemma_bit_len_pos(code as nat);
        }
        self.write_bits(0, bits - 1);
        self.write_bits(code, bits);
        proof {
            let zs = u32_bits(0, (bits - 1) as nat);
            assert forall|j: int| 0 <= j < bits - 1 implies #[trigger] zs[j] == false by {
                let sh = (bits - 1 - 1 - j) as u32;
                assert((0u32 >> sh) & 1u32 == 0u32) by (bit_vector);
            }
            assert(u32_bits(0, (bits - 1) as nat) =~= zeros((bits - 1) as nat));
        }
    }

    /// Write a signed Exp-Golomb coded value `se(v)`.
    pub fn write_se(&mut self, value: i32)
        requires
            value > i32::MIN,
        ensures
            final(self).bits() == old(self).bits() + se_bits(value),
    {
        let code: u32 = if value <= 0 {
            ((-(value as i64)) * 2) as u32
        } else {
            ((value as i64) * 2 - 1) as u32
        };
        self.write_ue(code);
    }

    /// Flush any partial byte (padded with zero bits) and return the bytes.
    pub fn finish(self) -> (r: Vec<u8>)
        ensures
            bytes_bits(r@) == self.bits() + zeros(pad_len(self.bits().len())),
            r@.len() * 8 == self.bits().len() + pad_len(self.bits().len()),
    {
        proof {
            use_type_invariant(&self);
        }
        let BitstreamWriter { data, current_byte, bit_offset } = self;
        let mut data = data;
        let ghost d = data@;
        let ghost part = Seq::new(bit_offset as nat, |k: int| byte_bit(current_byte, k));
        proof {
            assert(bytes_bits(d).len() % 8 == 0) by (nonlinear_arith)
                requires bytes_bits(d).len() == d.len() * 8;
            assert((bytes_bits(d).len() + bit_offset) % 8 == bit_offset as int) by (nonlinear_arith)
                requires bytes_bits(d).len() % 8 == 0, bit_offset < 8;
        }
        if bit_offset > 0 {
            data.push(current_byte);
            proof {
                lemma_bytes_bits_push(d, current_byte);
                let full = Seq::new(8, |k: int| byte_bit(current_byte, k));
                assert forall|k: int| bit_offset <= k < 8 implies !full[k] by {
                    lemma_high_bits_clear(current_byte, bit_offset, k as u8);
                }
                assert(full =~= part + zeros((8 - bit_offset) as nat));
                assert(bytes_bits(data@) =~= (bytes_bits(d) + part) + zeros(
                    (8 - bit_offset) as nat,
                ));
            }
        } else {
            proof {
                assert(part =~= Seq::<bool>::empty());
                assert(bytes_bits(data@) =~= (bytes_bits(d) + part) + zeros(0));
            }
        }
        data
    }

    /// Write bytes captured by `BitstreamReader::read_remaining_bytes`:
    /// when `bit_offset` is not zero, only the low `8 - bit_offset` bits of the
    /// first byte are written.
    pub fn write_remaining_bytes(&mut self, data: &[u8], bit_offset: u8)
        requires
            data@.len() == 0 || bit_offset < 8,
        ensures
            final(self).bits() == old(self).bits() + (if data@.len() == 0 {
                Seq::<bool>::empty()
            } else {
                bytes_bits(data@).subrange(bit_offset as int, (data@.len() * 8) as int)
            }),
    {
        if data.len() == 0 {
            assert(old(self).bits() + Seq::<bool>::empty() =~= old(self).bits());
            return ;
        }
        let ghost all = bytes_bits(data@);
        let mut start: usize = 0;
        if bit_offset > 0 {
            let bits_left: u8 = 8 - bit_offset;
            let mask = low_mask(bits_left);
            let v = (data[0] & mask) as u32;
            self.write_bits(v, bits_left);
            proof {
                let ub = u32_bits(v, bits_left as nat);
                assert forall|j: int| 0 <= j < bits_left implies #[trigger] ub[j] == all[bit_offset + j] by {
                    lemma_masked_bit(data@[0], bit_offset, j as u8);
                    assert((bit_offset + j) / 8 == 0);
                }
                assert(u32_bits(v, bits_left as nat) =~= all.subrange(bit_offset as int, 8));
            }
            start = 1;
        } else {
            assert(all.subrange(0, 0) =~= Seq::<bool>::empty());
            assert(old(self).bits() =~= old(self).bits() + all.subrange(0, 0));
        }
        let mut i: usize = start;
        while i < data.len()
            invariant
                1 <= data@.len(),
                start <= i <= data@.len(),
                start == 0 || start == 1,
                start == 0 ==> bit_offset == 0,
                bit_offset < 8,
                all == bytes_bits(data@),
                self.bits() == old(self).bits() + all.subrange(
                    (if start == 1 { bit_offset as int } else { 0 }),
                    i * 8,
                ),
            decreases data@.len() - i,
        {
            let b = data[i];
            let ghost before = self.bits();
            self.write_bits(b as u32, 8);
            proof {
                let ub = u32_bits(b as u32, 8);
                assert forall|j: int| 0 <= j < 8 implies #[trigger] ub[j] == all[i * 8 + j] by {
                    lemma_byte_bit_u32(b, j as u8);
                    assert((i * 8 + j) / 8 == i);
                    assert((i * 8 + j) % 8 == j);
                }
                let lo: int = if start == 1 { bit_offset as int } else { 0 };
                assert(all.subrange(lo, (i + 1) * 8) =~= all.subrange(lo, i * 8) + all.subrange(
                    i * 8,
                    i * 8 + 8,
                ));
                assert(u32_bits(b as u32, 8) =~= all.subrange(i * 8, i * 8 + 8));
            }
            i = i + 1;
        }
    }
}

/// Setting bit `bo` of a partial byte keeps the bits below the new offset clear.
proof fn lemma_set_bit(cb: u8, bit: u8, bo: u8)
    requires
        bit <= 1,
        bo < 8,
        cb & (0xFFu8 >> bo) == 0,
    ensures
        bo < 7 ==> (cb | (bit << ((7 - bo) as u8))) & (0xFFu8 >> ((bo + 1) as u8)) == 0,
        bo < 7 ==> cb & (0xFFu8 >> ((bo + 1) as u8)) == 0,
{
    assert(bo < 7 ==> (cb | (bit << ((7 - bo) as u8))) & (0xFFu8 >> ((bo + 1) as u8)) == 0) by (bit_vector)
        requires bit <= 1, bo < 8, cb & (0xFFu8 >> bo) == 0;
    assert(bo < 7 ==> cb & (0xFFu8 >> ((bo + 1) as u8)) == 0) by (bit_vector)
        requires bo < 8, cb & (0xFFu8 >> bo) == 0;
}

/// The bits of a partial byte after setting bit `bo`.
proof fn lemma_set_bit_at(cb: u8, bit: u8, bo: u8, k: u8)
    requires
        bit <= 1,
        bo < 8,
        k <= bo,
        cb & (0xFFu8 >> bo) == 0,
    ensures
        k < bo ==> byte_bit(cb | (bit << ((7 - bo) as u8)), k as int) == byte_bit(cb, k as int),
        k == bo ==> byte_bit(cb | (bit << ((7 - bo) as u8)), k as int) == (bit == 1),
{
    assert(k < bo ==> ((cb | (bit << ((7 - bo) as u8))) >> ((7 - k) as u8)) & 1u8 == (cb >> ((7 - k) as u8)) & 1u8) by (bit_vector)
        requires bit <= 1, bo < 8, k <= bo;
    assert(k == bo ==> ((((cb | (bit << ((7 - bo) as u8))) >> ((7 - k) as u8)) & 1u8 == 1u8) == (bit == 1))) by (bit_vector)
        requires bit <= 1, bo < 8, k <= bo, cb & (0xFFu8 >> bo) == 0;
}

/// The bits of a partial byte at and after its bit offset are clear.
proof fn lemma_high_bits_clear(cb: u8, bo: u8, k: u8)
    requires
        bo <= k < 8,
        cb & (0xFFu8 >> bo) == 0,
    ensures
        !byte_bit(cb, k as int),
{
    assert(((cb >> ((7 - k) as u8)) & 1u8) != 1u8) by (bit_vector)
        requires bo <= k < 8, cb & (0xFFu8 >> bo) == 0;
}

/// The low `8 - bo` bits of a byte, masked, give its bits from `bo` on.
proof fn lemma_masked_bit(b: u8, bo: u8, j: u8)
    requires
        1 <= bo < 8,
        j < 8 - bo,
    ensures
        ((((b & low_mask_spec((8 - bo) as u8)) as u32) >> (((8 - bo) - 1 - j) as u32)) & 1u32 == 1u32)
            == byte_bit(b, (bo + j) as int),
{
    assert(((((b & (((1u8 << ((8 - bo) as u8)) - 1) as u8)) as u32) >> (((8 - bo) - 1 - j) as u32)) & 1u32 == 1u32)
        == (((b >> ((7 - (bo + j)) as u8)) & 1u8) == 1u8)) by (bit_vector)
        requires 1 <= bo < 8, j < 8 - bo;
}

/// The bits of a byte widened to 32 bits.
proof fn lemma_byte_bit_u32(b: u8, j: u8)
    requires
        j < 8,
    ensures
        (((b as u32) >> ((8 - 1 - j) as u32)) & 1u32 == 1u32) == byte_bit(b, j as int),
{
    assert((((b as u32) >> ((8 - 1 - j) as u32)) & 1u32 == 1u32) == (((b >> ((7 - j) as u8)) & 1u8) == 1u8)) by (bit_vector)
        requires j < 8;
}

/// A positive number has at least one binary digit, and fewer than 33 when
/// it fits in 32 bits.
proof fn lemma_bit_len_pos(c: nat)
    requires
        c > 0,
    ensures
        bit_len(c) >= 1,
{
}

/// Masking a byte to its bits from `bo` on keeps those bits.
proof fn lemma_masked_byte_bit(b: u8, bo: u8, k: u8)
    requires
        1 <= bo < 8,
        bo <= k < 8,
    ensures
        byte_bit(b & low_mask_spec((8 - bo) as u8), k as int) == byte_bit(b, k as int),
{
    assert((((b & (((1u8 << ((8 - bo) as u8)) - 1) as u8)) >> ((7 - k) as u8)) & 1u8) == ((b >> ((7 - k) as u8)) & 1u8))
        by (bit_vector)
        requires 1 <= bo < 8, bo <= k < 8;
}

/// The bits that writing remaining bytes adds: those of `rem` from bit
/// `off` on (none when `rem` is empty).
pub open spec fn remaining_written(rem: Seq<u8>, off: nat) -> Seq<bool> {
    if rem.len() == 0 {
        Seq::empty()
    } else {
        bytes_bits(rem).subrange(off as int, (rem.len() * 8) as int)
    }
}

/// Writing back the bytes that remain after `k` bits, behind those `k`
/// bits, rebuilds the input: the bits are the input's, and the bytes a
/// writer then finishes with (padding included) are the input.
pub proof fn lemma_remaining_rebuilds(d: Seq<u8>, k: nat, out: Seq<u8>)
    requires
        k <= d.len() * 8,
        bytes_bits(out) == bytes_bits(d).take(k as int) + remaining_written(remaining_bytes_spec(d, k), k % 8)
            + zeros(pad_len((bytes_bits(d).take(k as int) + remaining_written(remaining_bytes_spec(d, k), k % 8)).len())),
    ensures
        bytes_bits(d).take(k as int) + remaining_written(remaining_bytes_spec(d, k), k % 8) == bytes_bits(d),
        out == d,
{
    let b = bytes_bits(d);
    let byte = k / 8;
    let bo = k % 8;
    let rem = remaining_bytes_spec(d, k);
    let w = remaining_written(rem, bo);
    assert(k == 8 * byte + bo);
    assert(byte <= d.len());
    if byte == d.len() {
        assert(bo == 0);
        assert(rem =~= Seq::<u8>::empty());
        assert(b.take(k as int) + w =~= b);
    } else {
        assert(rem.len() == d.len() - byte);
        assert forall|t: int| bo <= t < rem.len() * 8 implies #[trigger] bytes_bits(rem)[t] == b[8 * byte + t] by {
            let q = t / 8;
            let m = t % 8;
            assert(t == 8 * q + m && 0 <= m < 8);
            assert((8 * byte + t) / 8 == byte + q && (8 * byte + t) % 8 == m) by (nonlinear_arith)
                requires t == 8 * q + m, 0 <= m < 8, byte >= 0;
            assert(0 <= q < rem.len()) by (nonlinear_arith)
                requires t == 8 * q + m, 0 <= m < 8, t < rem.len() * 8, t >= 0;
            if bo != 0 && q == 0 {
                assert(rem[0] == d[byte as int] & low_mask_spec((8 - bo) as u8));
                lemma_masked_byte_bit(d[byte as int], bo as u8, m as u8);
            } else {
                assert(rem[q] == d[byte + q]);
            }
        }
        assert(b.take(k as int) + w =~= b) by {
            assert forall|j: int| 0 <= j < b.len() implies #[trigger] (b.take(k as int) + w)[j] == b[j] by {
                if j >= k {
                    let t = bo + (j - k);
                    assert(8 * byte + t == j);
                    assert(t < rem.len() * 8) by (nonlinear_arith)
                        requires t == j - 8 * byte, j < b.len(), b.len() == d.len() * 8, rem.len() == d.len() - byte;
                }
            }
        }
    }
    assert(b.len() % 8 == 0) by (nonlinear_arith)
        requires b.len() == d.len() * 8;
    assert(zeros(pad_len(b.len())) =~= Seq::<bool>::empty());
    assert(bytes_bits(out) =~= bytes_bits(d));
    lemma_bits_bytes(out);
    lemma_bits_bytes(d);
}

/// The mask of the low `k` bits of a byte (`1 <= k <= 7`).
pub open spec fn low_mask_spec(k: u8) -> u8 {
    ((1u8 << k) - 1) as u8
}

/// The mask of the low `k` bits of a byte (`1 <= k <= 7`).
#[verifier::when_used_as_spec(low_mask_spec)]
pub fn low_mask(k: u8) -> (r: u8)
    requires
        1 <= k <= 7,
    ensures
        r == low_mask_spec(k),
{
    assert((1u8 << k) >= 1) by (bit_vector)
        requires 1 <= k <= 7;
    (1u8 << k) - 1
}

/// The bytes that `read_remaining_bytes` returns at bit position `p`.
pub open spec fn remaining_bytes_spec(d: Seq<u8>, p: nat) -> Seq<u8> {
    let byte = p / 8;
    let bo = p % 8;
    if bo != 0 {
        seq![d[byte as int] & low_mask_spec((8 - bo) as u8)] + d.subrange(byte + 1int, d.len() as int)
    } else {
        d.subrange(byte as int, d.len() as int)
    }
}

/// Whether RBSP data remains at bit position `p` of `d`: some bit is left and
/// either the last byte is zero or its last one bit lies after `p`.
pub open spec fn has_more_rbsp_data_spec(d: Seq<u8>, p: nat) -> bool {
    &&& p < d.len() * 8
    &&& (d.last() == 0 || (d.len() - 1) * 8 + (7 - vstd::std_specs::bits::u8_trailing_zeros(
        d.last(),
    )) > p)
}

/// Appending a byte appends its eight bits.
pub proof fn lemma_bytes_bits_push(d: Seq<u8>, b: u8)
    ensures
        bytes_bits(d.push(b)) == bytes_bits(d) + Seq::new(8, |k: int| byte_bit(b, k)),
{
    let l = bytes_bits(d.push(b));
    let r = bytes_bits(d) + Seq::new(8, |k: int| byte_bit(b, k));
    assert forall|i: int| 0 <= i < l.len() implies l[i] == r[i] by {
        if i < d.len() * 8 {
            assert(i / 8 < d.len());
        } else {
            assert(i / 8 == d.len());
            assert(i % 8 == i - d.len() * 8);
        }
    }
    assert(l =~= r);
}

/// The eight bits of a byte, read as a number, give back the byte.
pub proof fn lemma_byte_of_bits(s: Seq<bool>)
    requires
        s.len() == 8,
    ensures
        Seq::new(8, |k: int| byte_bit(seq_val(s) as u8, k)) == s,
{
    let v = seq_val(s);
    reveal_with_fuel(seq_val, 9);
    let b0 = s[0];
    let b1 = s[1];
    let b2 = s[2];
    let b3 = s[3];
    let b4 = s[4];
    let b5 = s[5];
    let b6 = s[6];
    let b7 = s[7];
    assert(s.drop_last().drop_last().drop_last().drop_last().drop_last().drop_last().drop_last().drop_last().len() == 0);
    let x = v as u8;
    lemma_seq_val_bound(s);
    vstd::arithmetic::power2::lemma2_to64();
    assert(v == 128 * (if b0 { 1nat } else { 0 }) + 64 * (if b1 { 1nat } else { 0 }) + 32 * (if b2 { 1nat } else { 0 }) + 16 * (if b3 { 1nat } else { 0 }) + 8 * (if b4 { 1nat } else { 0 }) + 4 * (if b5 { 1nat } else { 0 }) + 2 * (if b6 { 1nat } else { 0 }) + (if b7 { 1nat } else { 0 }));
    let t = Seq::new(8, |k: int| byte_bit(x, k));
    assert(((x >> 7u8) & 1u8 == 1u8) == b0 && ((x >> 6u8) & 1u8 == 1u8) == b1 && ((x >> 5u8) & 1u8 == 1u8) == b2 && ((x >> 4u8) & 1u8 == 1u8) == b3 && ((x >> 3u8) & 1u8 == 1u8) == b4 && ((x >> 2u8) & 1u8 == 1u8) == b5 && ((x >> 1u8) & 1u8 == 1u8) == b6 && ((x >> 0u8) & 1u8 == 1u8) == b7) by (bit_vector)
        requires x == 128 * (if b0 { 1u8 } else { 0u8 }) + 64 * (if b1 { 1u8 } else { 0u8 }) + 32 * (if b2 { 1u8 } else { 0u8 }) + 16 * (if b3 { 1u8 } else { 0u8 }) + 8 * (if b4 { 1u8 } else { 0u8 }) + 4 * (if b5 { 1u8 } else { 0u8 }) + 2 * (if b6 { 1u8 } else { 0u8 }) + (if b7 { 1u8 } else { 0u8 });
    assert(t =~= s);
}

/// The number written by `u32_bits(v, n)` is `v` reduced to `n` bits.
pub proof fn lemma_seq_val_u32_bits(v: u32, n: nat)
    requires
        n <= 32,
    ensures
        seq_val(u32_bits(v, n)) == v as nat % pow2(n),
    decreases n,
{
    vstd::arithmetic::power2::lemma2_to64();
    if n == 0 {
        assert(u32_bits(v, 0) =~= Seq::<bool>::empty());
    } else {
        let s = u32_bits(v, n);
        let h = v >> 1u32;
        assert forall|j: int| 0 <= j < n - 1 implies #[trigger] s.drop_last()[j] == u32_bits(h, (n - 1) as nat)[j] by {
            let a = (n - 2 - j) as u32;
            assert((v >> ((a + 1) as u32)) == ((v >> 1u32) >> a)) by (bit_vector)
                requires a < 31;
        }
        assert(s.drop_last() =~= u32_bits(h, (n - 1) as nat));
        lemma_seq_val_u32_bits(h, (n - 1) as nat);
        assert((v >> 1u32) == v / 2) by (bit_vector);
        assert((v >> 0u32) & 1u32 == v % 2) by (bit_vector);
        vstd::arithmetic::power2::lemma_pow2_unfold(n);
        vstd::arithmetic::power2::lemma_pow2_pos((n - 1) as nat);
        lemma_mod_double(v as nat, pow2((n - 1) as nat));
    }
}

/// `v mod 2m` from `(v / 2) mod m` and the low bit of `v`.
proof fn lemma_mod_double(v: nat, m: nat)
    requires
        m > 0,
    ensures
        v % (2 * m) == 2 * ((v / 2) % m) + v % 2,
{
    let q = v / 2;
    let r = v % 2;
    let a = q / m;
    let b = q % m;
    vstd::arithmetic::div_mod::lemma_fundamental_div_mod(v as int, 2);
    vstd::arithmetic::div_mod::lemma_fundamental_div_mod(q as int, m as int);
    assert(v == (2 * m) * a + (2 * b + r)) by (nonlinear_arith)
        requires v == 2 * q + r, q == m * a + b;
    vstd::arithmetic::div_mod::lemma_mod_multiples_vanish(a as int, (2 * b + r) as int, (2 * m) as int);
    vstd::arithmetic::div_mod::lemma_small_mod((2 * b + r) as nat, 2 * m);
}

/// A positive number of `b` binary digits lies in `[2^(b-1), 2^b)`.
pub proof fn lemma_bit_len_bounds(c: nat)
    requires
        c > 0,
    ensures
        bit_len(c) >= 1,
        pow2((bit_len(c) - 1) as nat) <= c < pow2(bit_len(c)),
    decreases c,
{
    vstd::arithmetic::power2::lemma2_to64();
    assert(bit_len(0) == 0);
    if c > 1 {
        lemma_bit_len_bounds(c / 2);
        let b = bit_len(c / 2);
        assert(bit_len(c) == b + 1);
        vstd::arithmetic::power2::lemma_pow2_unfold(b + 1);
        vstd::arithmetic::power2::lemma_pow2_unfold(b);
        assert(c == 2 * (c / 2) + c % 2);
    } else {
        assert(bit_len(1) == 1);
    }
}

/// Zero bits before position `p + j` count towards the zero run at `p`.
proof fn lemma_zero_count_prefix(s: Seq<bool>, p: nat, j: nat)
    requires
        p + j <= s.len(),
        forall|i: int| p <= i < p + j ==> !s[i],
    ensures
        zero_count(s, p) == j + zero_count(s, p + j),
    decreases j,
{
    if j > 0 {
        lemma_zero_count_prefix(s, p + 1, (j - 1) as nat);
    }
}

/// Reading `n` bits where the `n`-bit encoding of `v` stands gives `v mod 2^n`.
pub proof fn lemma_read_bits_written(s: Seq<bool>, p: nat, v: u32, n: nat)
    requires
        n <= 32,
        p + n <= s.len(),
        s.subrange(p as int, (p + n) as int) == u32_bits(v, n),
    ensures
        read_bits_spec(s, p, n) == Ok::<(u32, nat), Error>(((v as nat % pow2(n)) as u32, p + n)),
{
    lemma_seq_val_u32_bits(v, n);
    vstd::arithmetic::power2::lemma2_to64();
    vstd::arithmetic::power2::lemma_pow2_pos(n);
    vstd::arithmetic::div_mod::lemma_mod_bound(v as int, pow2(n) as int);
    if n < 32 {
        vstd::arithmetic::power2::lemma_pow2_strictly_increases(n, 32);
    }
    vstd::arithmetic::div_mod::lemma_small_mod(v as nat % pow2(n), 0x1_0000_0000);
}

/// Reading a `ue(v)` code where `ue_bits(v)` stands gives back `v`.
#[verifier::spinoff_prover]
pub proof fn lemma_read_ue_written(s: Seq<bool>, p: nat, v: u32)
    requires
        v < u32::MAX,
        p + ue_bits(v).len() <= s.len(),
        s.subrange(p as int, (p + ue_bits(v).len()) as int) == ue_bits(v),
    ensures
        read_ue_spec(s, p) == Ok::<(u32, nat), Error>((v, p + ue_bits(v).len())),
{
    let code: u32 = (v + 1) as u32;
    lemma_bit_len_bounds(code as nat);
    vstd::arithmetic::power2::lemma2_to64();
    let k = (bit_len(code as nat) - 1) as nat;
    if k >= 32 {
        vstd::arithmetic::power2::lemma_pow2_strictly_increases(32, k);
    }
    assert(k < 32);
    let e = ue_bits(v);
    assert(e.len() == 2 * k + 1);
    assert forall|i: int| p <= i < p + k implies !s[i] by {
        assert(s[i] == s.subrange(p as int, (p + e.len()) as int)[i - p]);
    }
    lemma_zero_count_prefix(s, p, k);
    // the bit after the zero run is the leading one of `code`
    assert(s[(p + k) as int] == e[k as int]);
    assert((code >> (k as u32)) & 1u32 == 1u32) by {
        vstd::bits::lemma_u32_shr_is_div(code, k as u32);
        vstd::arithmetic::power2::lemma_pow2_unfold(k + 1);
        vstd::arithmetic::div_mod::lemma_fundamental_div_mod_converse_div(
            code as int, pow2(k) as int, 1, code - pow2(k));
        let t = code >> (k as u32);
        assert(t & 1u32 == 1u32) by (bit_vector)
            requires t == 1u32;
    }
    assert(zero_count(s, p + k) == 0);
    if k > 0 {
        let q = p + k + 1;
        let low = s.subrange(q as int, (q + k) as int);
        assert forall|j: int| 0 <= j < k implies #[trigger] low[j] == u32_bits(code, k)[j] by {
            assert(low[j] == e[k + 1 + j]);
        }
        assert(low =~= u32_bits(code, k));
        lemma_seq_val_u32_bits(code, k);
        vstd::arithmetic::div_mod::lemma_fundamental_div_mod(code as int, pow2(k) as int);
        vstd::arithmetic::power2::lemma_pow2_unfold(k + 1);
        assert(code as nat / pow2(k) == 1) by {
            vstd::arithmetic::div_mod::lemma_fundamental_div_mod_converse_div(
                code as int, pow2(k) as int, 1, code - pow2(k));
        }
        assert(seq_val(low) == code as nat % pow2(k));
        assert(code as nat == pow2(k) + code as nat % pow2(k));
        assert(pow2(k) - 1 + seq_val(low) == v);
        assert(q + k == p + e.len());
        assert(zero_count(s, p) == k);
        assert(read_ue_spec(s, p) == Ok::<(u32, nat), Error>((v, p + e.len())));
    } else {
        assert(zero_count(s, p) == 0);
        assert(v == 0);
    }
}

/// Reading an `se(v)` code where `se_bits(v)` stands gives back `v`.
pub proof fn lemma_read_se_written(s: Seq<bool>, p: nat, v: i32)
    requires
        v > i32::MIN,
        p + se_bits(v).len() <= s.len(),
        s.subrange(p as int, (p + se_bits(v).len()) as int) == se_bits(v),
    ensures
        read_se_spec(s, p) == Ok::<(i32, nat), Error>((v, p + se_bits(v).len())),
{
    lemma_read_ue_written(s, p, se_code(v));
}

/// The `se(v)` codes of values, in order.
pub open spec fn ses_bits(vs: Seq<i32>) -> Seq<bool>
    decreases vs.len(),
{
    if vs.len() == 0 {
        Seq::empty()
    } else {
        ses_bits(vs.drop_last()) + se_bits(vs.last())
    }
}

/// The `ue(v)` codes of values, in order.
pub open spec fn ues_bits(vs: Seq<u32>) -> Seq<bool>
    decreases vs.len(),
{
    if vs.len() == 0 {
        Seq::empty()
    } else {
        ues_bits(vs.drop_last()) + ue_bits(vs.last())
    }
}

/// The codes of the first `j` values begin the codes of all.
proof fn lemma_ses_prefix(vs: Seq<i32>, j: int)
    requires
        0 <= j <= vs.len(),
    ensures
        ses_bits(vs.take(j)).len() <= ses_bits(vs).len(),
        ses_bits(vs).take(ses_bits(vs.take(j)).len() as int) == ses_bits(vs.take(j)),
    decreases vs.len(),
{
    if j == vs.len() {
        assert(vs.take(j) =~= vs);
        assert(ses_bits(vs).take(ses_bits(vs).len() as int) =~= ses_bits(vs));
    } else {
        let v2 = vs.drop_last();
        assert(vs.take(j) =~= v2.take(j));
        lemma_ses_prefix(v2, j);
        assert(ses_bits(vs).take(ses_bits(vs.take(j)).len() as int) =~= ses_bits(v2).take(ses_bits(v2.take(j)).len() as int));
    }
}

/// The codes of the first `j` values begin the codes of all.
proof fn lemma_ues_prefix(vs: Seq<u32>, j: int)
    requires
        0 <= j <= vs.len(),
    ensures
        ues_bits(vs.take(j)).len() <= ues_bits(vs).len(),
        ues_bits(vs).take(ues_bits(vs.take(j)).len() as int) == ues_bits(vs.take(j)),
    decreases vs.len(),
{
    if j == vs.len() {
        assert(vs.take(j) =~= vs);
        assert(ues_bits(vs).take(ues_bits(vs).len() as int) =~= ues_bits(vs));
    } else {
        let v2 = vs.drop_last();
        assert(vs.take(j) =~= v2.take(j));
        lemma_ues_prefix(v2, j);
        assert(ues_bits(vs).take(ues_bits(vs.take(j)).len() as int) =~= ues_bits(v2).take(ues_bits(v2.take(j)).len() as int));
    }
}

/// Reading back `se(v)` values written in a row: the `k`-th read, from
/// where the codes of the first `k` values end, gives the `k`-th value.
pub proof fn lemma_read_ses_written(s: Seq<bool>, p: nat, vs: Seq<i32>, k: int)
    requires
        forall|i: int| 0 <= i < vs.len() ==> #[trigger] vs[i] > i32::MIN,
        p + ses_bits(vs).len() <= s.len(),
        s.subrange(p as int, (p + ses_bits(vs).len()) as int) == ses_bits(vs),
        0 <= k < vs.len(),
    ensures
        read_se_spec(s, p + ses_bits(vs.take(k)).len()) == Ok::<(i32, nat), Error>((vs[k], p + ses_bits(vs.take(k + 1)).len())),
{
    lemma_ses_prefix(vs, k + 1);
    let a = ses_bits(vs.take(k));
    let c = se_bits(vs[k]);
    assert(vs.take(k + 1).drop_last() =~= vs.take(k));
    assert(ses_bits(vs.take(k + 1)) == a + c);
    let q = p + a.len();
    let all = ses_bits(vs);
    assert(s.subrange(q as int, (q + c.len()) as int) =~= all.take((a + c).len() as int).subrange(a.len() as int, (a + c).len() as int));
    assert((a + c).subrange(a.len() as int, (a + c).len() as int) =~= c);
    lemma_read_se_written(s, q, vs[k]);
}

/// Reading back `ue(v)` values written in a row: the `k`-th read, from
/// where the codes of the first `k` values end, gives the `k`-th value.
pub proof fn lemma_read_ues_written(s: Seq<bool>, p: nat, vs: Seq<u32>, k: int)
    requires
        forall|i: int| 0 <= i < vs.len() ==> #[trigger] vs[i] < u32::MAX,
        p + ues_bits(vs).len() <= s.len(),
        s.subrange(p as int, (p + ues_bits(vs).len()) as int) == ues_bits(vs),
        0 <= k < vs.len(),
    ensures
        read_ue_spec(s, p + ues_bits(vs.take(k)).len()) == Ok::<(u32, nat), Error>((vs[k], p + ues_bits(vs.take(k + 1)).len())),
{
    lemma_ues_prefix(vs, k + 1);
    let a = ues_bits(vs.take(k));
    let c = ue_bits(vs[k]);
    assert(vs.take(k + 1).drop_last() =~= vs.take(k));
    assert(ues_bits(vs.take(k + 1)) == a + c);
    let q = p + a.len();
    let all = ues_bits(vs);
    assert(s.subrange(q as int, (q + c.len()) as int) =~= all.take((a + c).len() as int).subrange(a.len() as int, (a + c).len() as int));
    assert((a + c).subrange(a.len() as int, (a + c).len() as int) =~= c);
    lemma_read_ue_written(s, q, vs[k]);
}

/// Shifting a bit into a 32-bit accumulator.
proof fn lemma_shift_in_bit(v: u32, b: u32)
    requires
        b <= 1,
    ensures
        ((v << 1u32) | b) as nat == (2 * (v as nat) + b as nat) % 0x1_0000_0000,
{
    assert(((v << 1u32) | b) == ((2 * (v as nat) + b as nat) % 0x1_0000_0000) as u32) by (bit_vector)
        requires b <= 1;
}

/// Appending a bit commutes with reduction modulo 2^32.
proof fn lemma_mod_shift(x: nat, b: nat)
    ensures
        (2 * (x % 0x1_0000_0000) + b) % 0x1_0000_0000 == (2 * x + b) % 0x1_0000_0000,
{
    let m: int = 0x1_0000_0000;
    vstd::arithmetic::div_mod::lemma_fundamental_div_mod(x as int, m);
    let q = x as int / m;
    let r = x as int % m;
    assert(2 * x + b == 2 * r + b + m * (2 * q)) by (nonlinear_arith)
        requires x == m * q + r;
    vstd::arithmetic::div_mod::lemma_mod_multiples_vanish(2 * q, 2 * r + b, m);
}


/// The digits of a number read from at most 32 bits are those bits.
pub proof fn lemma_u32_bits_seq_val(t: Seq<bool>)
    requires
        t.len() <= 32,
    ensures
        seq_val(t) < 0x1_0000_0000,
        u32_bits(seq_val(t) as u32, t.len()) == t,
    decreases t.len(),
{
    lemma_seq_val_bound(t);
    vstd::arithmetic::power2::lemma2_to64();
    if t.len() > 0 {
        vstd::arithmetic::power2::lemma_pow2_strictly_increases(t.len(), 33);
    }
    if t.len() == 0 {
        assert(u32_bits(0, 0) =~= t);
    } else {
        let n = t.len();
        let tp = t.drop_last();
        lemma_u32_bits_seq_val(tp);
        lemma_seq_val_bound(tp);
        if n < 32 {
            vstd::arithmetic::power2::lemma_pow2_strictly_increases((n - 1) as nat, 31);
        }
        let x = seq_val(tp) as u32;
        let b: u32 = if t.last() { 1 } else { 0 };
        let v = seq_val(t) as u32;
        assert(v == 2 * x + b);
        assert(x < 0x8000_0000);
        assert forall|j: int| 0 <= j < n implies #[trigger] u32_bits(v, n)[j] == t[j] by {
            if j == n - 1 {
                assert(((v >> 0u32) & 1u32 == 1u32) == (b == 1u32)) by (bit_vector)
                    requires v == 2 * x + b, b <= 1u32, x < 0x8000_0000u32;
            } else {
                let k = (n - 2 - j) as u32;
                assert((v >> ((k + 1) as u32)) & 1u32 == (x >> k) & 1u32) by (bit_vector)
                    requires v == 2 * x + b, b <= 1u32, x < 0x8000_0000u32, k < 31u32;
                assert(u32_bits(x, (n - 1) as nat)[j] == tp[j]);
            }
        }
        assert(u32_bits(v, n) =~= t);
    }
}

/// The bits consumed by a successful `read_bits_spec` of at most 32 bits
/// are the `n`-bit encoding of the value read.
pub proof fn lemma_read_bits_consumed(s: Seq<bool>, p: nat, n: nat)
    requires
        n <= 32,
        read_bits_spec(s, p, n) is Ok,
    ensures
        read_bits_spec(s, p, n)->Ok_0.1 == p + n,
        s.subrange(p as int, (p + n) as int) == u32_bits(read_bits_spec(s, p, n)->Ok_0.0, n),
{
    let t = s.subrange(p as int, (p + n) as int);
    lemma_u32_bits_seq_val(t);
    vstd::arithmetic::div_mod::lemma_small_mod(seq_val(t), 0x1_0000_0000);
}

/// A `ue(v)` code with `z` leading zeros carries `v + 1 = 2^z + m`, `m < 2^z`.
proof fn lemma_ue_bits_shape(v: u32, z: nat, low: Seq<bool>)
    requires
        z < 32,
        low.len() == z,
        v as nat + 1 == pow2(z) + seq_val(low),
    ensures
        ue_bits(v) == zeros(z) + seq![true] + low,
{
    vstd::arithmetic::power2::lemma2_to64();
    lemma_seq_val_bound(low);
    lemma_u32_bits_seq_val(low);
    let m = seq_val(low) as u32;
    let code: u32 = (v + 1) as u32;
    vstd::arithmetic::power2::lemma_pow2_unfold(z + 1);
    vstd::arithmetic::power2::lemma_pow2_strictly_increases(z + 1, 33);
    lemma_bit_len_bounds(code as nat);
    let k = (bit_len(code as nat) - 1) as nat;
    // the digit count of `code` is `z + 1`
    if k + 1 < z {
        vstd::arithmetic::power2::lemma_pow2_strictly_increases(k + 1, z);
    } else if z + 1 < k {
        vstd::arithmetic::power2::lemma_pow2_strictly_increases(z + 1, k);
    }
    assert(k == z);
    let zz = z as u32;
    assert(pow2(z) == (1u32 << zz) as nat) by {
        vstd::bits::lemma_u32_shl_is_mul(1u32, zz);
        vstd::arithmetic::power2::lemma_pow2_pos(z);
    }
    let e = ue_bits(v);
    let f = zeros(z) + seq![true] + low;
    assert forall|j: int| 0 <= j < e.len() implies #[trigger] e[j] == f[j] by {
        if j >= z {
            let i = j - z;
            let sh = (z - i) as u32;
            if i == 0 {
                assert((code >> zz) & 1u32 == 1u32) by (bit_vector)
                    requires code == m + (1u32 << zz), m < (1u32 << zz), zz < 32u32;
            } else {
                assert((code >> sh) & 1u32 == (m >> sh) & 1u32) by (bit_vector)
                    requires code == m + (1u32 << zz), m < (1u32 << zz), zz < 32u32, sh < zz;
                assert(u32_bits(m, z)[i - 1] == low[i - 1]);
            }
        }
    }
    assert(e =~= f);
}

/// The bits consumed by a successful `read_ue_spec` are the code `ue_bits`
/// of the value read, and that value is below `u32::MAX`.
pub proof fn lemma_read_ue_consumed(s: Seq<bool>, p: nat)
    requires
        read_ue_spec(s, p) is Ok,
    ensures
        read_ue_spec(s, p)->Ok_0.0 < u32::MAX,
        read_ue_spec(s, p)->Ok_0.1 == p + ue_bits(read_ue_spec(s, p)->Ok_0.0).len(),
        s.subrange(p as int, read_ue_spec(s, p)->Ok_0.1 as int) == ue_bits(read_ue_spec(s, p)->Ok_0.0),
{
    let z = zero_count(s, p);
    let (v, q) = read_ue_spec(s, p)->Ok_0;
    vstd::arithmetic::power2::lemma2_to64();
    lemma_zero_count_facts(s, p);
    let low = if z == 0 { Seq::<bool>::empty() } else { s.subrange((p + z + 1) as int, (p + 2 * z + 1) as int) };
    lemma_seq_val_bound(low);
    vstd::arithmetic::power2::lemma_pow2_strictly_increases(z, 32);
    if z == 0 {
        assert(seq_val(low) == 0);
    }
    assert(v as nat + 1 == pow2(z) + seq_val(low));
    lemma_ue_bits_shape(v, z, low);
    let t = s.subrange(p as int, q as int);
    let f = zeros(z) + seq![true] + low;
    assert forall|j: int| 0 <= j < t.len() implies #[trigger] t[j] == f[j] by {
        if j > z {
            assert(t[j] == low[j - z - 1]);
        }
    }
    assert(t =~= f);
}

/// The zero run at `p` is followed by a one bit, when the input goes on.
proof fn lemma_zero_count_facts(s: Seq<bool>, p: nat)
    ensures
        forall|i: int| p <= i < p + zero_count(s, p) ==> !s[i],
        p + zero_count(s, p) < s.len() ==> s[(p + zero_count(s, p)) as int],
        p < s.len() ==> p + zero_count(s, p) <= s.len(),
    decreases s.len() - p,
{
    if p < s.len() && !s[p as int] {
        lemma_zero_count_facts(s, p + 1);
    }
}

/// The bits consumed by a successful `read_se_spec` are the code `se_bits`
/// of the value read, and that value is above `i32::MIN`.
pub proof fn lemma_read_se_consumed(s: Seq<bool>, p: nat)
    requires
        read_se_spec(s, p) is Ok,
    ensures
        read_se_spec(s, p)->Ok_0.0 > i32::MIN,
        read_se_spec(s, p)->Ok_0.1 == p + se_bits(read_se_spec(s, p)->Ok_0.0).len(),
        s.subrange(p as int, read_se_spec(s, p)->Ok_0.1 as int) == se_bits(read_se_spec(s, p)->Ok_0.0),
{
    lemma_read_ue_consumed(s, p);
    let c = read_ue_spec(s, p)->Ok_0.0;
    assert(se_code(se_value(c)) == c);
}


/// One bit of value 1 is the bit `true`.
pub proof fn lemma_u32_bits_one()
    ensures
        u32_bits(1, 1) == seq![true],
{
    assert((1u32 >> 0u32) & 1u32 == 1u32) by (bit_vector);
    assert(u32_bits(1, 1) =~= seq![true]);
}

/// Eight bits of a byte value are the bits of that byte.
pub proof fn lemma_u32_bits_byte(b: u8)
    ensures
        u32_bits(b as u32, 8) == Seq::new(8, |k: int| byte_bit(b, k)),
{
    assert forall|k: int| 0 <= k < 8 implies #[trigger] u32_bits(b as u32, 8)[k] == byte_bit(b, k) by {
        let sh = (7 - k) as u32;
        let sh8 = (7 - k) as u8;
        assert((((b as u32) >> sh) & 1u32 == 1u32) == ((b >> sh8) & 1u8 == 1u8)) by (bit_vector)
            requires sh < 8u32, sh8 == sh as u8;
    }
    assert(u32_bits(b as u32, 8) =~= Seq::new(8, |k: int| byte_bit(b, k)));
}

/// Concatenation of bit sequences is associative.
pub proof fn lemma_add_assoc(a: Seq<bool>, b: Seq<bool>, c: Seq<bool>)
    ensures
        (a + b) + c == a + (b + c),
{
    assert((a + b) + c =~= a + (b + c));
}

/// An Exp-Golomb code has at least one bit.
pub proof fn lemma_ue_bits_nonempty(v: u32)
    ensures
        ue_bits(v).len() >= 1,
{
}

/// The bytes whose bits are `b`: byte `i` is the number formed by bits
/// `8 * i` to `8 * i + 7` (a trailing partial byte is dropped).
pub open spec fn bits_bytes(b: Seq<bool>) -> Seq<u8> {
    Seq::new(b.len() / 8, |i: int| seq_val(b.subrange(8 * i, 8 * i + 8)) as u8)
}

/// Reading bytes back from their bits gives the bytes.
pub proof fn lemma_bits_bytes(d: Seq<u8>)
    ensures
        bits_bytes(bytes_bits(d)) == d,
{
    let b = bytes_bits(d);
    assert forall|i: int| 0 <= i < d.len() implies #[trigger] bits_bytes(b)[i] == d[i] by {
        let s = b.subrange(8 * i, 8 * i + 8);
        let x = d[i];
        assert forall|k: int| 0 <= k < 8 implies s[k] == byte_bit(x, k) by {
            assert((8 * i + k) / 8 == i) by (nonlinear_arith)
                requires 0 <= k < 8;
            assert((8 * i + k) % 8 == k) by (nonlinear_arith)
                requires 0 <= k < 8;
        }
        assert(s =~= Seq::new(8, |k: int| byte_bit(x, k)));
        lemma_byte_of_bits(s);
        let y = seq_val(s) as u8;
        assert(Seq::new(8, |k: int| byte_bit(y, k))[0] == s[0]);
        assert(Seq::new(8, |k: int| byte_bit(y, k))[1] == s[1]);
        assert(Seq::new(8, |k: int| byte_bit(y, k))[2] == s[2]);
        assert(Seq::new(8, |k: int| byte_bit(y, k))[3] == s[3]);
        assert(Seq::new(8, |k: int| byte_bit(y, k))[4] == s[4]);
        assert(Seq::new(8, |k: int| byte_bit(y, k))[5] == s[5]);
        assert(Seq::new(8, |k: int| byte_bit(y, k))[6] == s[6]);
        assert(Seq::new(8, |k: int| byte_bit(y, k))[7] == s[7]);
        assert(y == x) by (bit_vector)
            requires
                ((y >> 7u8) & 1u8 == 1u8) == ((x >> 7u8) & 1u8 == 1u8),
                ((y >> 6u8) & 1u8 == 1u8) == ((x >> 6u8) & 1u8 == 1u8),
                ((y >> 5u8) & 1u8 == 1u8) == ((x >> 5u8) & 1u8 == 1u8),
                ((y >> 4u8) & 1u8 == 1u8) == ((x >> 4u8) & 1u8 == 1u8),
                ((y >> 3u8) & 1u8 == 1u8) == ((x >> 3u8) & 1u8 == 1u8),
                ((y >> 2u8) & 1u8 == 1u8) == ((x >> 2u8) & 1u8 == 1u8),
                ((y >> 1u8) & 1u8 == 1u8) == ((x >> 1u8) & 1u8 == 1u8),
                ((y >> 0u8) & 1u8 == 1u8) == ((x >> 0u8) & 1u8 == 1u8);
    }
    assert(bits_bytes(b) =~= d);
}

} // verus!
