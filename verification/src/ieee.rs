//! Reading IEEE 754 bit patterns with integer arithmetic: the whole number
//! that a floating-point number is cut to.

use crate::ele::{Real32, Real64};
use vstd::prelude::*;

verus! {

/// `m`, halved `k` times, each time rounding down.
pub open spec fn halved(m: nat, k: nat) -> nat
    decreases k,
{
    if k == 0 {
        m
    } else {
        halved(m, (k - 1) as nat) / 2
    }
}

/// Two to the power of `k`, for `k` from 0 to 10.
pub open spec fn small_power(k: int) -> nat {
    if k <= 0 {
        1
    } else if k == 1 {
        2
    } else if k == 2 {
        4
    } else if k == 3 {
        8
    } else if k == 4 {
        16
    } else if k == 5 {
        32
    } else if k == 6 {
        64
    } else if k == 7 {
        128
    } else if k == 8 {
        256
    } else if k == 9 {
        512
    } else {
        1024
    }
}

/// The exponent field of a double-precision pattern.
pub open spec fn exponent64(bits: u64) -> nat {
    ((bits / 0x10_0000_0000_0000) % 0x800) as nat
}

/// The fraction field of a double-precision pattern.
pub open spec fn fraction64(bits: u64) -> nat {
    (bits % 0x10_0000_0000_0000) as nat
}

/// The greatest or the least 64-bit number, by the sign of the pattern.
pub open spec fn saturated(negative: bool) -> i64 {
    if negative {
        i64::MIN
    } else {
        i64::MAX
    }
}

/// The whole number that the double-precision number of the pattern is cut
/// to: zero for a number that is not one, the nearest 64-bit number for one
/// out of range, else the number without its fraction.
pub open spec fn truncated64(bits: u64) -> i64 {
    let negative = bits >= 0x8000_0000_0000_0000;
    let e = exponent64(bits);
    let f = fraction64(bits);
    if e == 0x7ff && f != 0 {
        0
    } else if e < 1023 {
        0
    } else if e >= 1086 {
        saturated(negative)
    } else {
        let mantissa = 0x10_0000_0000_0000 + f;
        let magnitude = if e >= 1075 {
            mantissa * small_power(e - 1075)
        } else {
            halved(mantissa, (1075 - e) as nat)
        };
        if negative {
            (-magnitude) as i64
        } else {
            magnitude as i64
        }
    }
}

/// The double-precision pattern of the same number as a single-precision
/// pattern of a normal number.
pub open spec fn widened(bits: u32) -> u64 {
    let sign: nat = if bits >= 0x8000_0000 {
        0x8000_0000_0000_0000
    } else {
        0
    };
    let e = ((bits / 0x80_0000) % 0x100) as nat;
    let f = (bits % 0x80_0000) as nat;
    (sign + (e + 896) * 0x10_0000_0000_0000 + f * 0x2000_0000) as u64
}

/// The whole number that the single-precision number of the pattern is cut
/// to.
pub open spec fn truncated32(bits: u32) -> i64 {
    let e = (bits / 0x80_0000) % 0x100;
    let f = bits % 0x80_0000;
    if e == 255 {
        if f != 0 {
            0
        } else {
            saturated(bits >= 0x8000_0000)
        }
    } else if e == 0 {
        0
    } else {
        truncated64(widened(bits))
    }
}

fn power(k: u64) -> (r: u64)
    requires
        k <= 10,
    ensures
        r == small_power(k as int),
{
    if k == 0 {
        1
    } else if k == 1 {
        2
    } else if k == 2 {
        4
    } else if k == 3 {
        8
    } else if k == 4 {
        16
    } else if k == 5 {
        32
    } else if k == 6 {
        64
    } else if k == 7 {
        128
    } else if k == 8 {
        256
    } else if k == 9 {
        512
    } else {
        1024
    }
}

proof fn lemma_halved_bound(m: nat, k: nat)
    ensures
        halved(m, k) <= m,
    decreases k,
{
    if k > 0 {
        lemma_halved_bound(m, (k - 1) as nat);
    }
}

/// The whole number that the double-precision number of the pattern is cut
/// to.
pub fn truncate64(bits: u64) -> (r: i64)
    ensures
        r == truncated64(bits),
{
    let negative = bits >= 0x8000_0000_0000_0000u64;
    let e: u64 = (bits / 0x10_0000_0000_0000u64) % 0x800u64;
    let f: u64 = bits % 0x10_0000_0000_0000u64;
    if e == 0x7ff && f != 0 {
        return 0;
    }
    if e < 1023 {
        return 0;
    }
    if e >= 1086 {
        return if negative {
            -9223372036854775807i64 - 1
        } else {
            9223372036854775807i64
        };
    }
    let mantissa: u64 = 0x10_0000_0000_0000u64 + f;
    let magnitude: u64 = if e >= 1075 {
        let p = power(e - 1075);
        assert(mantissa * p <= 0x1f_ffff_ffff_ffff * 1024) by (nonlinear_arith)
            requires
                mantissa <= 0x1f_ffff_ffff_ffff,
                p <= 1024,
        ;
        mantissa * p
    } else {
        let k: u64 = 1075 - e;
        let mut x: u64 = mantissa;
        let mut i: u64 = 0;
        while i < k
            invariant
                i <= k,
                x == halved(mantissa as nat, i as nat),
            decreases k - i,
        {
            x = x / 2;
            i += 1;
        }
        proof {
            lemma_halved_bound(mantissa as nat, k as nat);
        }
        x
    };
    if negative {
        -(magnitude as i64)
    } else {
        magnitude as i64
    }
}

/// The whole number that the single-precision number of the pattern is cut
/// to.
pub fn truncate32(bits: u32) -> (r: i64)
    ensures
        r == truncated32(bits),
{
    let negative = bits >= 0x8000_0000u32;
    let e: u32 = (bits / 0x80_0000u32) % 0x100u32;
    let f: u32 = bits % 0x80_0000u32;
    if e == 255 {
        return if f != 0 {
            0
        } else if negative {
            -9223372036854775807i64 - 1
        } else {
            9223372036854775807i64
        };
    }
    if e == 0 {
        return 0;
    }
    let sign: u64 = if negative {
        0x8000_0000_0000_0000u64
    } else {
        0
    };
    let wide: u64 = sign + (e as u64 + 896) * 0x10_0000_0000_0000u64 + (f as u64) * 0x2000_0000u64;
    truncate64(wide)
}

impl Real32 {
    /// The whole number that this number is cut to.
    pub fn truncated(&self) -> (r: i64)
        ensures
            r == truncated32(self.bits),
    {
        truncate32(self.bits)
    }
}

impl Real64 {
    /// The whole number that this number is cut to.
    pub fn truncated(&self) -> (r: i64)
        ensures
            r == truncated64(self.bits),
    {
        truncate64(self.bits)
    }
}

} // verus!
