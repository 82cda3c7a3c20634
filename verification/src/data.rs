//! Operand values: register references and integer literals.

use vstd::prelude::*;
use crate::text::{decimal, push_decimal, push_signed_decimal, signed_decimal};

verus! {

/// A reference to one of the machine's registers, by index.
///
/// Any `u8` can be written in source text; the engine faults when it meets an
/// index that names no register.
#[derive(Copy, Clone, Debug, PartialEq, Eq, PartialOrd, Ord, Structural)]
pub struct Reg(pub u8);

impl Reg {
    /// The single byte that encodes this register reference.
    pub fn byte(&self) -> (b: u8)
        ensures
            b == self.0,
    {
        self.0
    }

    /// The index in decimal digits.
    pub fn to_string(&self) -> (s: String)
        ensures
            s@ == decimal(self.0 as nat),
    {
        let mut s = String::new();
        push_decimal(&mut s, self.0 as u64);
        assert(s@ =~= decimal(self.0 as nat));
        s
    }
}

/// An integer literal as written in source text.
#[derive(Copy, Clone, Debug, PartialEq, Eq, PartialOrd, Ord, Structural)]
pub struct Int(pub i32);

/// The low sixteen bits of `n`, as a number in `0..65536`.
///
/// This is the value that survives when a literal is stored in the two-byte
/// operand slot: literals outside `-32768..=32767` lose their high bits.
pub open spec fn low16(n: i32) -> int {
    (n as int) % 0x1_0000
}

impl Int {
    /// The two bytes that encode this literal: the low sixteen bits of the
    /// value, high byte first.
    pub fn bytes(&self) -> (b: [u8; 2])
        ensures
            b[0] == low16(self.0) / 256,
            b[1] == low16(self.0) % 256,
    {
        let n: i32 = self.0;
        let m: u16 = #[verifier::truncate] (n as u16);
        let hi: u8 = (m >> 8) as u8;
        let lo: u8 = (m & 0xff) as u8;
        assert(m == low16(n)) by (bit_vector)
            requires
                m == n as u16,
        ;
        assert(hi == m / 256 && lo == m % 256) by (bit_vector)
            requires
                hi == (m >> 8) as u8,
                lo == (m & 0xff) as u8,
        ;
        [hi, lo]
    }

    /// The value in decimal digits, after a minus sign if it is negative.
    pub fn to_string(&self) -> (s: String)
        ensures
            s@ == signed_decimal(self.0 as int),
    {
        let mut s = String::new();
        push_signed_decimal(&mut s, self.0);
        assert(s@ =~= signed_decimal(self.0 as int));
        s
    }
}

} // verus!
