use vstd::arithmetic::power2::*;
use vstd::prelude::*;

verus! {

/// `x` clamped to the range of `i64`: the result of saturating arithmetic.
pub open spec fn clip64(x: int) -> int {
    if x < i64::MIN as int {
        i64::MIN as int
    } else if x > i64::MAX as int {
        i64::MAX as int
    } else {
        x
    }
}

/// Division of `a` by a positive `b`, rounding towards zero (as Rust's `/` does).
pub open spec fn div_trunc(a: int, b: int) -> int
    recommends
        b > 0,
{
    if a >= 0 {
        a / b
    } else {
        -((-a) / b)
    }
}

/// The signed distance from `b` to `a` on the 64-bit timestamp circle.
pub open spec fn wrap_diff(a: u64, b: u64) -> int {
    let d = (a as int - b as int) % 0x1_0000_0000_0000_0000;
    if d >= 0x8000_0000_0000_0000 {
        d - 0x1_0000_0000_0000_0000
    } else {
        d
    }
}

/// `2^e` seconds in ticks, saturated above and truncated to zero far below.
pub open spec fn exponent_ticks(e: int) -> int {
    if e > 30 {
        i64::MAX as int
    } else if e >= -32 {
        pow2((32 + e) as nat) as int
    } else {
        0
    }
}

pub(crate) fn clip_i128(x: i128) -> (r: i64)
    ensures
        r as int == clip64(x as int),
{
    if x < i64::MIN as i128 {
        i64::MIN
    } else if x > i64::MAX as i128 {
        i64::MAX
    } else {
        x as i64
    }
}

/// Ticks in one second.
pub const ONE_SECOND: i64 = 0x1_0000_0000;

/// The floor of the dispersion in ticks: 2^-16 seconds.
pub const MIN_DISPERSION: i64 = 0x1_0000;

/// The ceiling of the dispersion in ticks: 16 seconds.
pub const MAX_DISPERSION: i64 = 0x10_0000_0000;

/// Signed fixed-point duration in units of 2^-32 seconds.
#[derive(Clone, Copy, Debug, PartialEq, Eq, Structural)]
pub struct NtpDuration {
    pub duration: i64,
}

/// Unsigned fixed-point NTP timestamp: 32 bits of seconds, 32 bits of fraction.
#[derive(Clone, Copy, Debug, PartialEq, Eq, Structural)]
pub struct NtpTimestamp {
    pub timestamp: u64,
}

impl NtpDuration {
    pub fn zero() -> (r: NtpDuration)
        ensures
            r.ticks() == 0,
    {
        NtpDuration { duration: 0 }
    }

    /// One second.
    pub fn one() -> (r: NtpDuration)
        ensures
            r.ticks() == ONE_SECOND,
    {
        NtpDuration { duration: ONE_SECOND }
    }

    /// The floor of the dispersion.
    pub fn min_dispersion() -> (r: NtpDuration)
        ensures
            r.ticks() == MIN_DISPERSION,
    {
        NtpDuration { duration: MIN_DISPERSION }
    }

    /// The ceiling of the dispersion, which also marks an empty filter stage.
    pub fn max_dispersion() -> (r: NtpDuration)
        ensures
            r.ticks() == MAX_DISPERSION,
    {
        NtpDuration { duration: MAX_DISPERSION }
    }

    pub open spec fn ticks(self) -> int {
        self.duration as int
    }

    pub fn from_bits(duration: i64) -> (r: NtpDuration)
        ensures
            r.duration == duration,
    {
        NtpDuration { duration }
    }

    pub fn to_bits(self) -> (r: i64)
        ensures
            r == self.duration,
    {
        self.duration
    }

    /// Saturating sum.
    pub fn add(self, rhs: NtpDuration) -> (r: NtpDuration)
        ensures
            r.ticks() == clip64(self.ticks() + rhs.ticks()),
    {
        NtpDuration { duration: clip_i128(self.duration as i128 + rhs.duration as i128) }
    }

    /// Saturating difference.
    pub fn sub(self, rhs: NtpDuration) -> (r: NtpDuration)
        ensures
            r.ticks() == clip64(self.ticks() - rhs.ticks()),
    {
        NtpDuration { duration: clip_i128(self.duration as i128 - rhs.duration as i128) }
    }

    /// Saturating product with an integer.
    pub fn mul(self, k: i64) -> (r: NtpDuration)
        ensures
            r.ticks() == clip64(self.ticks() * k),
    {
        let a: i128 = self.duration as i128;
        let b: i128 = k as i128;
        assert(-0x4000_0000_0000_0000_0000_0000_0000_0000 <= a * b <= 0x4000_0000_0000_0000_0000_0000_0000_0000)
            by (nonlinear_arith)
            requires
                -0x8000_0000_0000_0000 <= a <= 0x8000_0000_0000_0000,
                -0x8000_0000_0000_0000 <= b <= 0x8000_0000_0000_0000,
        ;
        let p: i128 = a * b;
        NtpDuration { duration: clip_i128(p) }
    }

    /// Quotient by a positive integer, rounded towards zero.
    pub fn div(self, k: i64) -> (r: NtpDuration)
        requires
            k > 0,
        ensures
            r.ticks() == div_trunc(self.ticks(), k as int),
    {
        let a: i128 = self.duration as i128;
        let m: u128 = if a >= 0 {
            a as u128
        } else {
            (-a) as u128
        };
        let q: u128 = m / (k as u128);
        assert(q <= m) by (nonlinear_arith)
            requires
                k > 0,
                q == m / (k as u128),
        ;
        if a >= 0 {
            NtpDuration { duration: q as i64 }
        } else {
            NtpDuration { duration: (-(q as i128)) as i64 }
        }
    }

    pub fn max(self, other: NtpDuration) -> (r: NtpDuration)
        ensures
            r.ticks() == if self.ticks() >= other.ticks() {
                self.ticks()
            } else {
                other.ticks()
            },
    {
        if self.duration >= other.duration {
            self
        } else {
            other
        }
    }

    pub fn min(self, other: NtpDuration) -> (r: NtpDuration)
        ensures
            r.ticks() == if self.ticks() <= other.ticks() {
                self.ticks()
            } else {
                other.ticks()
            },
    {
        if self.duration <= other.duration {
            self
        } else {
            other
        }
    }

    /// `2^e` seconds.
    pub fn from_exponent(e: i8) -> (r: NtpDuration)
        ensures
            r.ticks() == exponent_ticks(e as int),
    {
        if e > 30 {
            NtpDuration { duration: i64::MAX }
        } else if e >= -32 {
            let n: u32 = (32 + e as i32) as u32;
            let mut p: i64 = 1;
            let mut k: u32 = 0;
            proof {
                lemma2_to64();
                lemma2_to64_rest();
            }
            while k < n
                invariant
                    n <= 62,
                    k <= n,
                    p as int == pow2(k as nat),
                    pow2(62) == 0x4000_0000_0000_0000,
                decreases n - k,
            {
                proof {
                    lemma_pow2_unfold((k + 1) as nat);
                    if k + 1 < 62 {
                        lemma_pow2_strictly_increases((k + 1) as nat, 62);
                    }
                }
                p = p * 2;
                k = k + 1;
            }
            NtpDuration { duration: p }
        } else {
            NtpDuration { duration: 0 }
        }
    }
}

impl NtpTimestamp {
    pub fn zero() -> (r: NtpTimestamp)
        ensures
            r.timestamp == 0,
    {
        NtpTimestamp { timestamp: 0 }
    }

    pub fn from_bits(timestamp: u64) -> (r: NtpTimestamp)
        ensures
            r.timestamp == timestamp,
    {
        NtpTimestamp { timestamp }
    }

    pub fn to_bits(self) -> (r: u64)
        ensures
            r == self.timestamp,
    {
        self.timestamp
    }

    /// Wrap-aware difference `self - rhs`: the small signed step between
    /// two timestamps, also across the end of an era.
    pub fn sub(self, rhs: NtpTimestamp) -> (r: NtpDuration)
        ensures
            r.ticks() == wrap_diff(self.timestamp, rhs.timestamp),
    {
        let d: u64 = self.timestamp.wrapping_sub(rhs.timestamp);
        if d >= 0x8000_0000_0000_0000 {
            NtpDuration { duration: (d as i128 - 0x1_0000_0000_0000_0000i128) as i64 }
        } else {
            NtpDuration { duration: d as i64 }
        }
    }

    /// The timestamp `d` after `self`, wrapping at the end of an era.
    pub fn add(self, d: NtpDuration) -> (r: NtpTimestamp)
        ensures
            r.timestamp as int == (self.timestamp as int + d.ticks()) % 0x1_0000_0000_0000_0000,
    {
        let s: i128 = self.timestamp as i128 + d.duration as i128;
        let m: i128 = if s < 0 {
            s + 0x1_0000_0000_0000_0000i128
        } else if s >= 0x1_0000_0000_0000_0000i128 {
            s - 0x1_0000_0000_0000_0000i128
        } else {
            s
        };
        NtpTimestamp { timestamp: m as u64 }
    }

    /// Wrap-aware order: `self` comes strictly before `other`.
    pub fn before(self, other: NtpTimestamp) -> (r: bool)
        ensures
            r == (wrap_diff(self.timestamp, other.timestamp) < 0),
    {
        self.sub(other).duration < 0
    }
}

} // verus!
