//! The kernel log on the first serial port.
//!
//! Text is formatted into two queues: the bytes for the port, and the bytes
//! that also go to the on-screen kernel log. The kernel drains both.
use vstd::prelude::*;
use vstd::string::StringSliceAdditionalSpecFns;

verus! {

/// The bytes waiting for the serial port and for the screen log.
pub struct SerialLog {
    pub port: Vec<u8>,
    pub log: Vec<u8>,
}

/// The ASCII hex digit (lower case) of `v < 16`.
pub open spec fn hex_digit(v: int) -> u8 {
    if v < 10 { (48 + v) as u8 } else { (97 + v - 10) as u8 }
}

/// The `n` hex digits of `value`, most significant first.
pub open spec fn hex_digits(value: u64, n: nat) -> Seq<u8> {
    Seq::new(n, |i: int| hex_digit(((value >> (4 * (n - 1 - i)) as u64) & 0xf) as int))
}

/// `value` in decimal without leading zeros.
pub open spec fn dec_digits(value: u8) -> Seq<u8> {
    (if value >= 100 { seq![(48 + value / 100) as u8] } else { Seq::empty() })
        + (if value >= 10 { seq![(48 + (value / 10) % 10) as u8] } else { Seq::empty() })
        + seq![(48 + value % 10) as u8]
}

impl SerialLog {
    /// Nothing queued.
    pub fn new() -> (r: SerialLog)
        ensures r.port@ == Seq::<u8>::empty(), r.log@ == Seq::<u8>::empty(),
    {
        SerialLog { port: Vec::new(), log: Vec::new() }
    }

    /// A byte for the port and the screen log.
    fn write_log_byte(&mut self, byte: u8)
        ensures
            final(self).port@ == old(self).port@.push(byte),
            final(self).log@ == old(self).log@.push(byte),
    {
        self.port.push(byte);
        self.log.push(byte);
    }

    /// `bytes` for the port and the screen log.
    fn write_log_bytes(&mut self, bytes: &[u8])
        ensures
            final(self).port@ == old(self).port@ + bytes@,
            final(self).log@ == old(self).log@ + bytes@,
    {
        let mut i: usize = 0;
        while i < bytes.len()
            invariant
                i <= bytes@.len(),
                self.port@ == old(self).port@ + bytes@.subrange(0, i as int),
                self.log@ == old(self).log@ + bytes@.subrange(0, i as int),
            decreases bytes@.len() - i,
        {
            self.write_log_byte(bytes[i]);
            proof {
                assert(bytes@.subrange(0, i as int + 1) =~= bytes@.subrange(0, i as int).push(bytes@[i as int]));
            }
            i += 1;
        }
        proof { assert(bytes@.subrange(0, bytes@.len() as int) =~= bytes@); }
    }

    /// A line of text.
    pub fn write_line(&mut self, text: &str)
        ensures
            final(self).port@ == old(self).port@ + text.spec_bytes() + seq![10u8],
            final(self).log@ == old(self).log@ + text.spec_bytes() + seq![10u8],
    {
        self.write_log_bytes(text.as_bytes());
        self.write_log_byte(10);
        proof {
            assert(self.port@ =~= old(self).port@ + text.spec_bytes() + seq![10u8]);
            assert(self.log@ =~= old(self).log@ + text.spec_bytes() + seq![10u8]);
        }
    }

    /// Text without a line end.
    pub fn write_str(&mut self, text: &str)
        ensures
            final(self).port@ == old(self).port@ + text.spec_bytes(),
            final(self).log@ == old(self).log@ + text.spec_bytes(),
    {
        self.write_log_bytes(text.as_bytes());
    }

    /// A byte for the port only.
    pub fn write_str_byte(&mut self, byte: u8)
        ensures
            final(self).port@ == old(self).port@.push(byte),
            final(self).log@ == old(self).log@,
    {
        self.port.push(byte);
    }

    /// One hex digit.
    fn write_nibble(&mut self, value: u8)
        requires value < 16,
        ensures
            final(self).port@ == old(self).port@.push(hex_digit(value as int)),
            final(self).log@ == old(self).log@.push(hex_digit(value as int)),
    {
        let digit = if value <= 9 { 48 + value } else { 97 + (value - 10) };
        self.write_log_byte(digit);
    }

    /// `value` as `0x` and `n` hex digits.
    fn write_hex(&mut self, value: u64, n: u64)
        requires 1 <= n <= 16,
        ensures
            final(self).port@ == old(self).port@ + seq![48u8, 120u8] + hex_digits(value, n as nat),
            final(self).log@ == old(self).log@ + seq![48u8, 120u8] + hex_digits(value, n as nat),
    {
        self.write_log_byte(48);
        self.write_log_byte(120);
        let ghost port0 = self.port@;
        let ghost log0 = self.log@;
        let mut i: u64 = 0;
        while i < n
            invariant
                1 <= n <= 16, i <= n,
                port0 == old(self).port@ + seq![48u8, 120u8],
                log0 == old(self).log@ + seq![48u8, 120u8],
                self.port@ == port0 + hex_digits(value, n as nat).subrange(0, i as int),
                self.log@ == log0 + hex_digits(value, n as nat).subrange(0, i as int),
            decreases n - i,
        {
            let shift: u64 = 4 * (n - 1 - i);
            let nibble = ((value >> shift) & 0xf) as u8;
            proof {
                assert(((value >> shift) & 0xf) < 16) by (bit_vector);
            }
            self.write_nibble(nibble);
            proof {
                assert(hex_digits(value, n as nat).subrange(0, i as int + 1)
                    =~= hex_digits(value, n as nat).subrange(0, i as int).push(hex_digit(nibble as int)));
            }
            i += 1;
        }
        proof {
            assert(hex_digits(value, n as nat).subrange(0, n as int) =~= hex_digits(value, n as nat));
            assert(self.port@ =~= old(self).port@ + seq![48u8, 120u8] + hex_digits(value, n as nat));
            assert(self.log@ =~= old(self).log@ + seq![48u8, 120u8] + hex_digits(value, n as nat));
        }
    }

    /// `value` as `0x` and four hex digits.
    pub fn write_hex_u16(&mut self, value: u16)
        ensures
            final(self).port@ == old(self).port@ + seq![48u8, 120u8] + hex_digits(value as u64, 4),
            final(self).log@ == old(self).log@ + seq![48u8, 120u8] + hex_digits(value as u64, 4),
    {
        self.write_hex(value as u64, 4);
    }

    /// `value` as `0x` and sixteen hex digits.
    pub fn write_hex_u64(&mut self, value: u64)
        ensures
            final(self).port@ == old(self).port@ + seq![48u8, 120u8] + hex_digits(value, 16),
            final(self).log@ == old(self).log@ + seq![48u8, 120u8] + hex_digits(value, 16),
    {
        self.write_hex(value, 16);
    }

    /// `value` in decimal.
    pub fn write_dec_u8(&mut self, value: u8)
        ensures
            final(self).port@ == old(self).port@ + dec_digits(value),
            final(self).log@ == old(self).log@ + dec_digits(value),
    {
        if value >= 100 {
            self.write_log_byte(48 + value / 100);
        }
        if value >= 10 {
            self.write_log_byte(48 + (value / 10) % 10);
        }
        self.write_log_byte(48 + value % 10);
        proof {
            assert(self.port@ =~= old(self).port@ + dec_digits(value));
            assert(self.log@ =~= old(self).log@ + dec_digits(value));
        }
    }
}

} // verus!
