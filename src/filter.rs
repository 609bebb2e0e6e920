use crate::time::{
    clip64, clip_i128, div_trunc, NtpDuration, NtpTimestamp, MAX_DISPERSION, ONE_SECOND,
};
use vstd::arithmetic::power2::{lemma2_to64, lemma_pow2_unfold, pow2};
use vstd::multiset::{group_multiset_axioms, group_multiset_properties};
use vstd::seq_lib::{to_multiset_contains, to_multiset_update};
use vstd::prelude::*;

verus! {

/// Ticks of the frequency tolerance phi (15 ppm) accrued over `ticks`.
pub open spec fn phi_of(ticks: int) -> int {
    div_trunc(ticks * 15, 1_000_000)
}

/// Scales a duration by the frequency tolerance phi, 15 ppm.
pub fn multiply_by_phi(duration: NtpDuration) -> (r: NtpDuration)
    ensures
        r.ticks() == phi_of(duration.ticks()),
{
    let a: i128 = duration.duration as i128 * 15;
    let m: u128 = if a >= 0 {
        a as u128
    } else {
        (-a) as u128
    };
    let q: u128 = m / 1_000_000;
    if a >= 0 {
        NtpDuration { duration: q as i64 }
    } else {
        NtpDuration { duration: (-(q as i128)) as i64 }
    }
}

/// One stage of the clock filter: a sample of offset, delay and dispersion
/// taken at `time`.
#[derive(Clone, Copy, Debug, PartialEq, Eq, Structural)]
pub struct FilterTuple {
    pub offset: NtpDuration,
    pub delay: NtpDuration,
    pub dispersion: NtpDuration,
    pub time: NtpTimestamp,
}

/// The sentinel that fills an empty stage.
pub open spec fn dummy_tuple() -> FilterTuple {
    FilterTuple {
        offset: NtpDuration { duration: 0 },
        delay: NtpDuration { duration: MAX_DISPERSION },
        dispersion: NtpDuration { duration: MAX_DISPERSION },
        time: NtpTimestamp { timestamp: 0 },
    }
}

/// A stage after `correction` of ageing: a dummy stays a dummy.
pub open spec fn aged(t: FilterTuple, correction: int) -> FilterTuple {
    if t == dummy_tuple() {
        t
    } else {
        FilterTuple {
            dispersion: NtpDuration { duration: clip64(t.dispersion.ticks() + correction) as i64 },
            ..t
        }
    }
}

/// The register after `new` entered it at the front and the others were
/// aged by `correction` and moved one stage back.
pub open spec fn shifted(reg: Seq<FilterTuple>, new: FilterTuple, correction: int) -> Seq<
    FilterTuple,
> {
    Seq::new(
        reg.len(),
        |i: int|
            if i == 0 {
                new
            } else {
                aged(reg[i - 1], correction)
            },
    )
}

impl FilterTuple {
    pub fn dummy() -> (r: FilterTuple)
        ensures
            r == dummy_tuple(),
    {
        FilterTuple {
            offset: NtpDuration::zero(),
            delay: NtpDuration::max_dispersion(),
            dispersion: NtpDuration::max_dispersion(),
            time: NtpTimestamp::zero(),
        }
    }

    pub fn is_dummy(self) -> (r: bool)
        ensures
            r == (self == dummy_tuple()),
    {
        self.offset.duration == 0 && self.delay.duration == MAX_DISPERSION
            && self.dispersion.duration == MAX_DISPERSION && self.time.timestamp == 0
    }
}

/// The shift register of the last eight samples, newest first.
#[derive(Clone, Copy, Debug)]
pub struct LastMeasurements {
    pub register: [FilterTuple; 8],
}

impl LastMeasurements {
    /// A register of dummies.
    pub fn new() -> (r: LastMeasurements)
        ensures
            forall|i: int| 0 <= i < 8 ==> #[trigger] r.register@[i] == dummy_tuple(),
    {
        LastMeasurements { register: [FilterTuple::dummy(); 8] }
    }

    /// Inserts `current` at the front; every other stage moves one back,
    /// aged by `dispersion_correction`, and the oldest is dropped.
    pub fn shift_and_insert(&mut self, current: FilterTuple, dispersion_correction: NtpDuration)
        ensures
            final(self).register@ == shifted(
                old(self).register@,
                current,
                dispersion_correction.ticks(),
            ),
    {
        let ghost before = self.register@;
        let mut carry = current;
        let mut i: usize = 0;
        while i < 8
            invariant
                i <= 8,
                before.len() == 8,
                self.register@.len() == 8,
                forall|j: int| 0 <= j < i ==> #[trigger] self.register@[j] == shifted(before, current, dispersion_correction.ticks())[j],
                forall|j: int| i <= j < 8 ==> #[trigger] self.register@[j] == before[j],
                carry == (if i == 0 {
                    current
                } else {
                    aged(before[i - 1], dispersion_correction.ticks())
                }),
            decreases 8 - i,
        {
            let mut t = self.register[i];
            if !t.is_dummy() {
                t.dispersion = t.dispersion.add(dispersion_correction);
            }
            self.register[i] = carry;
            carry = t;
            i = i + 1;
        }
        assert(self.register@ =~= shifted(before, current, dispersion_correction.ticks()));
    }
}

impl Default for LastMeasurements {
    fn default() -> (r: LastMeasurements)
        ensures
            forall|i: int| 0 <= i < 8 ==> #[trigger] r.register@[i] == dummy_tuple(),
    {
        LastMeasurements::new()
    }
}

/// Offset differences enter the jitter capped at 2^30 seconds, the widest
/// span that the timestamp arithmetic produces.
pub const OFFSET_SPREAD_CAP: i64 = 0x4000_0000_0000_0000;

pub open spec fn sorted_by_delay(s: Seq<FilterTuple>) -> bool {
    forall|i: int, j: int|
        0 <= i < j < s.len() ==> #[trigger] s[i].delay.ticks() <= #[trigger] s[j].delay.ticks()
}

/// `v` is the register `reg` sorted by increasing delay.
pub open spec fn is_sorted_view(v: Seq<FilterTuple>, reg: Seq<FilterTuple>) -> bool {
    &&& v.len() == 8
    &&& sorted_by_delay(v)
    &&& v.to_multiset() == reg.to_multiset()
}

/// `n` is where the trailing run of dummies of `s` starts.
pub open spec fn valid_len(s: Seq<FilterTuple>, n: int) -> bool {
    &&& 0 <= n <= s.len()
    &&& forall|i: int| n <= i < s.len() ==> #[trigger] s[i] == dummy_tuple()
    &&& (n == 0 || s[n - 1] != dummy_tuple())
}

/// The sum of `s[i].dispersion / 2^(i+1)` over the first `k` stages.
pub open spec fn dispersion_sum(s: Seq<FilterTuple>, k: nat) -> int
    decreases k,
{
    if k == 0 {
        0
    } else {
        dispersion_sum(s, (k - 1) as nat) + div_trunc(
            s[k - 1].dispersion.ticks(),
            pow2(k) as int,
        )
    }
}

pub open spec fn capped(x: int) -> int {
    if x > OFFSET_SPREAD_CAP {
        OFFSET_SPREAD_CAP as int
    } else if x < -OFFSET_SPREAD_CAP {
        -OFFSET_SPREAD_CAP
    } else {
        x
    }
}

/// The sum of squared offset differences to `anchor` over the first `k` samples.
pub open spec fn offset_spread(s: Seq<FilterTuple>, anchor: FilterTuple, k: nat) -> int
    decreases k,
{
    if k == 0 {
        0
    } else {
        let d = capped(s[k - 1].offset.ticks() - anchor.offset.ticks());
        offset_spread(s, anchor, (k - 1) as nat) + d * d
    }
}

pub open spec fn is_isqrt(r: int, x: int) -> bool {
    0 <= r && r * r <= x < (r + 1) * (r + 1)
}

/// The integer square root, rounded down.
pub open spec fn isqrt(x: int) -> int {
    choose|r: int| is_isqrt(r, x)
}

/// The jitter of the samples `s` around `anchor`, floored at `precision`:
/// the root of the squared offset differences over `|s| - 1`.
pub open spec fn jitter_of(s: Seq<FilterTuple>, anchor: FilterTuple, precision: int) -> int {
    let base = if s.len() <= 1 {
        0
    } else {
        clip64(isqrt(offset_spread(s, anchor, s.len())) / (s.len() - 1))
    };
    if precision >= base {
        precision
    } else {
        base
    }
}

proof fn lemma_isqrt_unique(r1: int, r2: int, x: int)
    requires
        is_isqrt(r1, x),
        is_isqrt(r2, x),
    ensures
        r1 == r2,
{
    if r1 < r2 {
        assert((r1 + 1) * (r1 + 1) <= r2 * r2) by (nonlinear_arith)
            requires
                0 <= r1 < r2,
        ;
    } else if r2 < r1 {
        assert((r2 + 1) * (r2 + 1) <= r1 * r1) by (nonlinear_arith)
            requires
                0 <= r2 < r1,
        ;
    }
}

/// The integer square root of `x`, rounded down.
fn sqrt_floor(x: u128) -> (r: u128)
    requires
        x <= 0x8000_0000_0000_0000_0000_0000_0000_0000,
    ensures
        r as int == isqrt(x as int),
        is_isqrt(r as int, x as int),
{
    let mut lo: u128 = 0;
    let mut hi: u128 = 0x1_0000_0000_0000_0000;
    while hi - lo > 1
        invariant
            lo < hi <= 0x1_0000_0000_0000_0000,
            lo * lo <= x,
            x < hi * hi,
        decreases hi - lo,
    {
        let mid: u128 = lo + (hi - lo) / 2;
        assert(mid * mid < 0x1_0000_0000_0000_0000_0000_0000_0000_0000) by (nonlinear_arith)
            requires
                mid < 0x1_0000_0000_0000_0000,
        ;
        if mid * mid <= x {
            lo = mid;
        } else {
            hi = mid;
        }
    }
    proof {
        assert(is_isqrt(lo as int, x as int));
        lemma_isqrt_unique(lo as int, isqrt(x as int), x as int);
    }
    lo
}

/// The eight samples of a shift register, sorted by increasing delay.
#[derive(Clone, Copy, Debug)]
pub struct TemporaryList {
    pub register: [FilterTuple; 8],
}

impl TemporaryList {
    /// A list of dummies.
    pub fn new() -> (r: TemporaryList)
        ensures
            forall|i: int| 0 <= i < 8 ==> #[trigger] r.register@[i] == dummy_tuple(),
            sorted_by_delay(r.register@),
    {
        TemporaryList { register: [FilterTuple::dummy(); 8] }
    }

    /// The stages of `source`, sorted by increasing delay.
    pub fn from_clock_filter_contents(source: &LastMeasurements) -> (r: TemporaryList)
        ensures
            sorted_by_delay(r.register@),
            r.register@.to_multiset() == source.register@.to_multiset(),
    {
        broadcast use {group_multiset_axioms, group_multiset_properties, to_multiset_update};

        let mut register = source.register;
        let mut i: usize = 1;
        while i < 8
            invariant
                1 <= i <= 8,
                register@.len() == 8,
                forall|a: int, b: int|
                    0 <= a < b < i ==> #[trigger] register@[a].delay.ticks()
                        <= #[trigger] register@[b].delay.ticks(),
                register@.to_multiset() == source.register@.to_multiset(),
            decreases 8 - i,
        {
            let mut j: usize = i;
            while j > 0 && register[j - 1].delay.duration > register[j].delay.duration
                invariant
                    0 <= j <= i < 8,
                    register@.len() == 8,
                    register@.to_multiset() == source.register@.to_multiset(),
                    forall|a: int, b: int|
                        0 <= a < b <= i && a != j && b != j ==> #[trigger] register@[a].delay.ticks()
                            <= #[trigger] register@[b].delay.ticks(),
                    forall|b: int|
                        j < b <= i ==> register@[j as int].delay.ticks()
                            < #[trigger] register@[b].delay.ticks(),
                decreases j,
            {
                let ghost s = register@;
                let t = register[j - 1];
                register[j - 1] = register[j];
                register[j] = t;
                proof {
                    let s1 = s.update(j - 1, s[j as int]);
                    assert(register@ == s1.update(j as int, s[j - 1]));
                    to_multiset_update(s, j - 1, s[j as int]);
                    to_multiset_update(s1, j as int, s[j - 1]);
                    assert(s.contains(s[j - 1]));
                    assert(s.contains(s[j as int]));
                    to_multiset_contains(s, s[j - 1]);
                    to_multiset_contains(s, s[j as int]);
                    assert(register@.to_multiset() =~= s.to_multiset());
                }
                j = j - 1;
            }
            proof {
                assert forall|a: int, b: int| 0 <= a < b <= i implies #[trigger] register@[a].delay.ticks()
                    <= #[trigger] register@[b].delay.ticks() by {
                    if b == j && a < j - 1 {
                        assert(register@[a].delay.ticks() <= register@[j - 1].delay.ticks());
                    }
                }
            }
            i = i + 1;
        }
        TemporaryList { register }
    }

    /// The sample of smallest delay.
    pub fn smallest_delay(&self) -> (r: FilterTuple)
        ensures
            r == self.register@[0],
    {
        self.register[0]
    }

    /// The prefix of the list before its trailing run of dummies.
    pub fn valid_tuples(&self) -> (r: &[FilterTuple])
        ensures
            valid_len(self.register@, r@.len() as int),
            r@ == self.register@.subrange(0, r@.len() as int),
    {
        let mut n: usize = 8;
        while n > 0 && self.register[n - 1].is_dummy()
            invariant
                n <= 8,
                forall|i: int| n <= i < 8 ==> #[trigger] self.register@[i] == dummy_tuple(),
            decreases n,
        {
            n = n - 1;
        }
        vstd::slice::slice_subrange(vstd::array::array_as_slice(&self.register), 0, n)
    }

    /// The sum of each stage's dispersion over 2^(i+1), i its place in the list.
    pub fn dispersion(&self) -> (r: NtpDuration)
        ensures
            r.ticks() == clip64(dispersion_sum(self.register@, 8)),
    {
        let mut acc: i128 = 0;
        let mut divisor: i64 = 2;
        let mut i: usize = 0;
        proof {
            lemma2_to64();
        }
        while i < 8
            invariant
                i <= 8,
                divisor as int == pow2((i + 1) as nat),
                2 <= divisor <= 512,
                pow2(9) == 512,
                acc as int == dispersion_sum(self.register@, i as nat),
                -(i as int) * 0x8000_0000_0000_0000 <= acc <= (i as int) * 0x8000_0000_0000_0000,
            decreases 8 - i,
        {
            proof {
                lemma_pow2_unfold((i + 2) as nat);
                if i + 2 < 9 {
                    vstd::arithmetic::power2::lemma_pow2_strictly_increases((i + 2) as nat, 9);
                }
            }
            let term = self.register[i].dispersion.div(divisor);
            acc = acc + term.duration as i128;
            divisor = divisor * 2;
            i = i + 1;
        }
        NtpDuration { duration: clip_i128(acc) }
    }

    /// The jitter of the valid samples around `smallest_delay`.
    pub fn jitter(&self, smallest_delay: FilterTuple, system_precision: NtpDuration) -> (r: NtpDuration)
        ensures
            exists|n: int|
                valid_len(self.register@, n) && r.ticks() == jitter_of(
                    self.register@.subrange(0, n),
                    smallest_delay,
                    system_precision.ticks(),
                ),
            r.ticks() >= system_precision.ticks(),
    {
        let valid = self.valid_tuples();
        Self::jitter_help(valid, smallest_delay, system_precision)
    }

    /// The jitter of `valid_tuples` around `smallest_delay`, floored at
    /// `system_precision`.
    pub fn jitter_help(
        valid_tuples: &[FilterTuple],
        smallest_delay: FilterTuple,
        system_precision: NtpDuration,
    ) -> (r: NtpDuration)
        requires
            valid_tuples@.len() <= 8,
        ensures
            r.ticks() == jitter_of(valid_tuples@, smallest_delay, system_precision.ticks()),
            r.ticks() >= system_precision.ticks(),
            valid_tuples@.len() <= 1 ==> r.ticks() == if system_precision.ticks() >= 0 {
                system_precision.ticks()
            } else {
                0
            },
    {
        let n = valid_tuples.len();
        let mut acc: u128 = 0;
        let mut i: usize = 0;
        while i < n
            invariant
                n == valid_tuples@.len() <= 8,
                i <= n,
                acc as int == offset_spread(valid_tuples@, smallest_delay, i as nat),
                acc <= (i as int) * 0x1000_0000_0000_0000_0000_0000_0000_0000,
            decreases n - i,
        {
            let raw: i128 = valid_tuples[i].offset.duration as i128 - smallest_delay.offset.duration as i128;
            let d: i128 = if raw > OFFSET_SPREAD_CAP as i128 {
                OFFSET_SPREAD_CAP as i128
            } else if raw < -(OFFSET_SPREAD_CAP as i128) {
                -(OFFSET_SPREAD_CAP as i128)
            } else {
                raw
            };
            assert(0 <= d * d <= 0x1000_0000_0000_0000_0000_0000_0000_0000) by (nonlinear_arith)
                requires
                    -0x4000_0000_0000_0000 <= d <= 0x4000_0000_0000_0000,
            ;
            acc = acc + (d * d) as u128;
            i = i + 1;
        }
        let base: i64 = if n <= 1 {
            0
        } else {
            let root = sqrt_floor(acc);
            let q: u128 = root / ((n - 1) as u128);
            if q > i64::MAX as u128 {
                i64::MAX
            } else {
                q as i64
            }
        };
        if system_precision.duration >= base {
            system_precision
        } else {
            NtpDuration { duration: base }
        }
    }
}

/// A register of dummies has dispersion 16 s * (1 - 2^-8) = 15.9375 s, a
/// little under the maximum of 16 s.
pub proof fn lemma_dummy_dispersion(s: Seq<FilterTuple>)
    requires
        s.len() == 8,
        forall|i: int| 0 <= i < 8 ==> #[trigger] s[i] == dummy_tuple(),
    ensures
        clip64(dispersion_sum(s, 8)) == 68451041280,
        159 * ONE_SECOND / 10 <= clip64(dispersion_sum(s, 8)) < 16 * ONE_SECOND,
{
    lemma2_to64();
    reveal_with_fuel(dispersion_sum, 9);
    assert(s[0] == dummy_tuple());
    assert(s[1] == dummy_tuple());
    assert(s[2] == dummy_tuple());
    assert(s[3] == dummy_tuple());
    assert(s[4] == dummy_tuple());
    assert(s[5] == dummy_tuple());
    assert(s[6] == dummy_tuple());
    assert(s[7] == dummy_tuple());
}

/// In a delay-sorted view whose real samples all have a delay under the
/// maximum dispersion, the valid prefix holds exactly the real samples:
/// none of it is a dummy and everything after it is. A view of dummies
/// alone has an empty valid prefix.
pub proof fn lemma_valid_prefix(s: Seq<FilterTuple>, n: int)
    requires
        sorted_by_delay(s),
        valid_len(s, n),
        forall|i: int|
            0 <= i < s.len() && #[trigger] s[i] != dummy_tuple() ==> s[i].delay.ticks()
                < MAX_DISPERSION,
    ensures
        forall|i: int| 0 <= i < n ==> #[trigger] s[i] != dummy_tuple(),
        forall|i: int| n <= i < s.len() ==> #[trigger] s[i] == dummy_tuple(),
        (forall|i: int| 0 <= i < s.len() ==> #[trigger] s[i] == dummy_tuple()) ==> n == 0,
{
    assert forall|i: int| 0 <= i < n implies #[trigger] s[i] != dummy_tuple() by {
        if s[i] == dummy_tuple() && i < n - 1 {
            assert(s[i].delay.ticks() <= s[n - 1].delay.ticks());
        }
    }
}

} // verus!
