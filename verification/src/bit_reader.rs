//! Packed MSB-first bit extraction from a byte sequence.
//!
//! Packet headers and tag trees consume the codestream bit by bit, most
//! significant bit first within each byte. The reader keeps a stable count of
//! bits consumed so far, which header parsing uses to byte-align terminators.

use vstd::prelude::*;

use crate::shared::TruncatedInput;

verus! {

/// Bit `i` of `data`, counting MSB-first within each byte.
pub open spec fn bit_of(data: Seq<u8>, i: int) -> bool
    recommends
        0 <= i < data.len() * 8,
{
    ((data[i / 8] as u32) >> ((7 - (i % 8)) as u32)) & 1 == 1
}

/// The unsigned value of the `n` bits of `data` starting at bit `pos`,
/// first bit most significant.
pub open spec fn bits_value(data: Seq<u8>, pos: int, n: nat) -> int
    decreases n,
{
    if n == 0 {
        0
    } else {
        2 * bits_value(data, pos, (n - 1) as nat) + if bit_of(data, pos + n - 1) {
            1int
        } else {
            0int
        }
    }
}

/// `2^n`, used to bound the value of an `n`-bit field.
pub open spec fn two_pow(n: nat) -> int
    decreases n,
{
    if n == 0 {
        1
    } else {
        2 * two_pow((n - 1) as nat)
    }
}

/// `2^n` is positive.
pub proof fn lemma_two_pow_pos(n: nat)
    ensures
        two_pow(n) >= 1,
    decreases n,
{
    if n > 0 {
        lemma_two_pow_pos((n - 1) as nat);
    }
}

/// `2^m <= 2^n` when `m <= n`.
pub proof fn lemma_two_pow_mono(m: nat, n: nat)
    requires
        m <= n,
    ensures
        two_pow(m) <= two_pow(n),
    decreases n,
{
    if m < n {
        lemma_two_pow_mono(m, (n - 1) as nat);
        lemma_two_pow_pos((n - 1) as nat);
    }
}

/// `2^n` fits a 32-bit signed magnitude for `n` up to 30.
#[verifier::rlimit(100)]
pub proof fn lemma_two_pow_le_2_30(n: nat)
    requires
        n <= 30,
    ensures
        two_pow(n) <= 0x4000_0000,
{
    lemma_two_pow_mono(n, 30);
    assert(two_pow(30) == 0x4000_0000) by {
        reveal_with_fuel(two_pow, 31);
    }
}

/// `2^n` fits the 32-bit result of a wide read for `n` up to 32.
#[verifier::rlimit(100)]
pub proof fn lemma_two_pow_le_2_32(n: nat)
    requires
        n <= 32,
    ensures
        two_pow(n) <= 0x1_0000_0000,
{
    lemma_two_pow_mono(n, 32);
    assert(two_pow(32) == 0x1_0000_0000) by {
        reveal_with_fuel(two_pow, 33);
    }
}

/// `2^n` is at most 256 for `n` up to 8.
pub proof fn lemma_two_pow_le_256(n: nat)
    requires
        n <= 8,
    ensures
        two_pow(n) <= 256,
{
    lemma_two_pow_mono(n, 8);
    assert(two_pow(8) == 256) by {
        reveal_with_fuel(two_pow, 9);
    }
}

/// Reads a byte sequence as a stream of bits, MSB-first within each byte.
pub struct BitReader {
    data: Vec<u8>,
    /// Number of bits consumed so far.
    pos: usize,
}

impl BitReader {
    /// The underlying byte sequence.
    pub closed spec fn bytes(&self) -> Seq<u8> {
        self.data@
    }

    /// How many bits have been consumed so far.
    pub closed spec fn bits_consumed(&self) -> nat {
        self.pos as nat
    }

    /// Internal consistency: the cursor never runs past the data, and the
    /// bit count fits the `u32` counter that `bits_read` exposes.
    pub closed spec fn wf(&self) -> bool {
        self.pos <= self.data@.len() * 8 && 8 * self.data@.len() <= u32::MAX
    }

    /// Wraps `data`; fails on an empty sequence, which cannot supply a bit.
    ///
    /// The length bound keeps the total bit count within the `u32` counter.
    pub fn new(data: Vec<u8>) -> (r: Result<BitReader, TruncatedInput>)
        requires
            data@.len() <= 0x0FFF_FFFF,
        ensures
            match r {
                Ok(br) => br.wf() && br.bytes() == data@ && br.bits_consumed() == 0 && data@.len()
                    > 0,
                Err(_) => data@.len() == 0,
            },
    {
        if data.len() == 0 {
            Err(TruncatedInput)
        } else {
            Ok(BitReader { data, pos: 0 })
        }
    }

    /// Consumes and returns the next bit; fails when the data is exhausted,
    /// leaving the reader unchanged.
    pub fn next_bit(&mut self) -> (r: Result<bool, TruncatedInput>)
        requires
            old(self).wf(),
        ensures
            final(self).wf(),
            final(self).bytes() == old(self).bytes(),
            match r {
                Ok(b) => {
                    &&& old(self).bits_consumed() < old(self).bytes().len() * 8
                    &&& b == bit_of(old(self).bytes(), old(self).bits_consumed() as int)
                    &&& final(self).bits_consumed() == old(self).bits_consumed() + 1
                },
                Err(_) => {
                    &&& old(self).bits_consumed() == old(self).bytes().len() * 8
                    &&& final(self).bits_consumed() == old(self).bits_consumed()
                },
            },
    {
        let byte_index = self.pos / 8;
        if byte_index >= self.data.len() {
            proof {
                vstd::arithmetic::div_mod::lemma_fundamental_div_mod(self.pos as int, 8);
            }
            return Err(TruncatedInput);
        }
        proof {
            vstd::arithmetic::div_mod::lemma_fundamental_div_mod(self.pos as int, 8);
        }
        let byte = self.data[byte_index];
        let shift: u32 = 7 - (self.pos % 8) as u32;
        let bit = ((byte as u32) >> shift) & 1 == 1;
        self.pos = self.pos + 1;
        Ok(bit)
    }

    /// Consumes `arg` bits (at most 8) and returns their value, first bit
    /// most significant. On truncated input the remaining bits have been
    /// consumed and an error is returned.
    pub fn take(&mut self, arg: u8) -> (r: Result<u8, TruncatedInput>)
        requires
            old(self).wf(),
            arg <= 8,
        ensures
            final(self).wf(),
            final(self).bytes() == old(self).bytes(),
            match r {
                Ok(v) => {
                    &&& old(self).bits_consumed() + arg <= old(self).bytes().len() * 8
                    &&& v == bits_value(
                        old(self).bytes(),
                        old(self).bits_consumed() as int,
                        arg as nat,
                    )
                    &&& final(self).bits_consumed() == old(self).bits_consumed() + arg
                },
                Err(_) => {
                    &&& old(self).bits_consumed() + arg > old(self).bytes().len() * 8
                    &&& final(self).bits_consumed() == old(self).bytes().len() * 8
                },
            },
    {
        let mut out: u8 = 0;
        let mut k: u8 = 0;
        while k < arg
            invariant
                self.wf(),
                self.bytes() == old(self).bytes(),
                k <= arg <= 8,
                self.bits_consumed() == old(self).bits_consumed() + k,
                out == bits_value(old(self).bytes(), old(self).bits_consumed() as int, k as nat),
                out < two_pow(k as nat),
            decreases arg - k,
        {
            proof {
                lemma_two_pow_le_256((k + 1) as nat);
            }
            match self.next_bit() {
                Ok(b) => {
                    out = out * 2 + if b {
                        1
                    } else {
                        0
                    };
                },
                Err(e) => {
                    return Err(e);
                },
            }
            k = k + 1;
        }
        Ok(out)
    }

    /// Consumes `arg` bits (at most 32) and returns their value, first bit
    /// most significant. On truncated input the remaining bits have been
    /// consumed and an error is returned.
    pub fn take32(&mut self, arg: u8) -> (r: Result<u32, TruncatedInput>)
        requires
            old(self).wf(),
            arg <= 32,
        ensures
            final(self).wf(),
            final(self).bytes() == old(self).bytes(),
            match r {
                Ok(v) => {
                    &&& old(self).bits_consumed() + arg <= old(self).bytes().len() * 8
                    &&& v == bits_value(
                        old(self).bytes(),
                        old(self).bits_consumed() as int,
                        arg as nat,
                    )
                    &&& final(self).bits_consumed() == old(self).bits_consumed() + arg
                },
                Err(_) => {
                    &&& old(self).bits_consumed() + arg > old(self).bytes().len() * 8
                    &&& final(self).bits_consumed() == old(self).bytes().len() * 8
                },
            },
    {
        let mut out: u32 = 0;
        let mut k: u8 = 0;
        while k < arg
            invariant
                self.wf(),
                self.bytes() == old(self).bytes(),
                k <= arg <= 32,
                self.bits_consumed() == old(self).bits_consumed() + k,
                out == bits_value(old(self).bytes(), old(self).bits_consumed() as int, k as nat),
                out < two_pow(k as nat),
            decreases arg - k,
        {
            proof {
                lemma_two_pow_le_2_32((k + 1) as nat);
            }
            match self.next_bit() {
                Ok(b) => {
                    out = out * 2 + if b {
                        1
                    } else {
                        0
                    };
                },
                Err(e) => {
                    return Err(e);
                },
            }
            k = k + 1;
        }
        Ok(out)
    }

    /// The number of bits consumed so far.
    pub fn bits_read(&self) -> (r: u32)
        requires
            self.wf(),
        ensures
            r == self.bits_consumed(),
    {
        self.pos as u32
    }
}

} // verus!
