//! A last-value metric.
//!
//! A gauge holds one 64-bit floating-point reading as its IEEE 754 bit
//! pattern in a single machine word, so a reader never observes half of a
//! write. Writers take the gauge exclusively; readers share it.

use vstd::prelude::*;

verus! {

/// The bit pattern of the quiet not-a-number value that marks a gauge
/// nobody has set.
pub const NAN_BITS: u64 = 0x7ff8_0000_0000_0000;

/// Whether `bits` encodes a not-a-number: all exponent bits set and a
/// mantissa that is not zero.
pub open spec fn spec_is_nan(bits: u64) -> bool {
    bits & 0x7ff0_0000_0000_0000 == 0x7ff0_0000_0000_0000 && bits & 0x000f_ffff_ffff_ffff != 0
}

/// Whether `bits` encodes a not-a-number.
pub fn is_nan(bits: u64) -> (nan: bool)
    ensures
        nan == spec_is_nan(bits),
{
    bits & 0x7ff0_0000_0000_0000 == 0x7ff0_0000_0000_0000 && bits & 0x000f_ffff_ffff_ffff != 0
}

/// The marker of an unset gauge is a not-a-number.
pub proof fn lemma_unset_is_nan()
    ensures
        spec_is_nan(NAN_BITS),
{
    assert(0x7ff8_0000_0000_0000u64 & 0x7ff0_0000_0000_0000 == 0x7ff0_0000_0000_0000) by (bit_vector);
    assert(0x7ff8_0000_0000_0000u64 & 0x000f_ffff_ffff_ffff != 0) by (bit_vector);
}

#[derive(Debug)]
pub struct Gauge {
    value: u64,
}

impl Gauge {
    /// The bit pattern of the reading the gauge holds.
    pub closed spec fn bits(&self) -> u64 {
        self.value
    }

    /// An unset gauge.
    pub fn new() -> (g: Gauge)
        ensures
            g.bits() == NAN_BITS,
            spec_is_nan(g.bits()),
    {
        proof {
            lemma_unset_is_nan();
        }
        Gauge { value: NAN_BITS }
    }

    /// Forgets the reading: the gauge is unset again.
    pub fn clear(&mut self)
        ensures
            final(self).bits() == NAN_BITS,
            spec_is_nan(final(self).bits()),
    {
        proof {
            lemma_unset_is_nan();
        }
        self.value = NAN_BITS;
    }

    /// Stores the reading whose bit pattern is `value`.
    pub fn set(&mut self, value: u64)
        ensures
            final(self).bits() == value,
    {
        self.value = value;
    }

    /// The bit pattern of the last reading stored, or of not-a-number if
    /// none was.
    pub fn snapshot(&self) -> (value: u64)
        ensures
            value == self.bits(),
    {
        self.value
    }
}

} // verus!
