use crate::filter::{
    dispersion_sum, is_sorted_view, jitter_of, multiply_by_phi, phi_of, shifted, valid_len,
    FilterTuple, LastMeasurements, TemporaryList,
};
use crate::packet::{NtpAssociationMode, NtpHeader, NtpLeapIndicator, ReferenceId};
use crate::time::{
    clip64, div_trunc, exponent_ticks, wrap_diff, NtpDuration, NtpTimestamp, MAX_DISPERSION,
    MIN_DISPERSION, ONE_SECOND,
};
use vstd::multiset::{group_multiset_axioms, group_multiset_properties};
use vstd::prelude::*;
use vstd::seq_lib::to_multiset_contains;

verus! {

/// A stratum of 16 or more means unsynchronized.
pub const MAX_STRATUM: u8 = 16;

/// The delay assumed for a broadcast sample: one second over 250, rounded down.
pub const BROADCAST_DELAY: i64 = 17179869;

/// The smallest poll exponent, 16 s.
pub const MIN_POLL: i8 = 4;

/// The largest poll exponent, about 36 hours.
pub const MAX_POLL: i8 = 17;

/// What the clock filter made of a new sample.
#[derive(Clone, Copy, Debug, PartialEq, Eq, Structural)]
pub enum Decision {
    Ignore,
    Process,
}

/// The peer's current estimate of offset, delay, dispersion and jitter.
#[derive(Clone, Copy, Debug, PartialEq, Eq, Structural)]
pub struct PeerStatistics {
    pub offset: NtpDuration,
    pub delay: NtpDuration,
    pub dispersion: NtpDuration,
    pub jitter: NtpDuration,
}

impl PeerStatistics {
    pub fn new() -> (r: PeerStatistics)
        ensures
            r.offset.ticks() == 0,
            r.delay.ticks() == 0,
            r.dispersion.ticks() == 0,
            r.jitter.ticks() == 0,
    {
        PeerStatistics {
            offset: NtpDuration::zero(),
            delay: NtpDuration::zero(),
            dispersion: NtpDuration::zero(),
            jitter: NtpDuration::zero(),
        }
    }
}

/// Reachability register: a bit is set for each packet that arrived.
/// The server is reachable while any bit is set.
#[derive(Clone, Copy, Debug, PartialEq, Eq, Structural)]
pub struct Reach(pub u8);

impl Reach {
    pub fn is_reachable(&self) -> (r: bool)
        ensures
            r == (self.0 != 0),
    {
        self.0 != 0
    }

    pub fn update(&mut self)
        ensures
            final(self).0 == old(self).0 | 1,
    {
        self.0 = self.0 | 1;
    }
}

/// The state of one association.
#[derive(Clone, Copy, Debug)]
pub struct Peer {
    pub statistics: PeerStatistics,
    pub last_measurements: LastMeasurements,
    pub last_packet: NtpHeader,
    pub time: NtpTimestamp,
    pub peer_id: ReferenceId,
    pub our_id: ReferenceId,
    pub host_poll: NtpDuration,
    pub burst: u8,
    pub out_date: NtpTimestamp,
    pub next_date: NtpTimestamp,
    pub reach: Reach,
}

/// The outcome of the clock filter on the sorted view `v` of the register.
pub open spec fn filter_outcome(
    before: Peer,
    after: Peer,
    v: Seq<FilterTuple>,
    leap: NtpLeapIndicator,
    precision: int,
    d: Decision,
) -> bool {
    if wrap_diff(v[0].time.timestamp, before.time.timestamp) <= 0 && leap.synchronized() {
        &&& d == Decision::Ignore
        &&& after.statistics == before.statistics
        &&& after.time == before.time
    } else {
        &&& d == Decision::Process
        &&& after.time == v[0].time
        &&& after.statistics.offset == v[0].offset
        &&& after.statistics.delay == v[0].delay
        &&& after.statistics.dispersion.ticks() == clip64(dispersion_sum(v, 8))
        &&& exists|n: int|
            valid_len(v, n) && after.statistics.jitter.ticks() == jitter_of(
                v.subrange(0, n),
                v[0],
                precision,
            )
    }
}

pub open spec fn max_int(a: int, b: int) -> int {
    if a >= b {
        a
    } else {
        b
    }
}

pub open spec fn min_int(a: int, b: int) -> int {
    if a <= b {
        a
    } else {
        b
    }
}

/// `value` held within `[lower, upper]`; where the bounds cross, `lower` wins.
pub open spec fn clamp_of(lower: int, value: int, upper: int) -> int {
    max_int(min_int(value, upper), lower)
}

/// The timestamp `d` ticks after `t`, on the 64-bit circle.
pub open spec fn ts_add(t: NtpTimestamp, d: int) -> NtpTimestamp {
    NtpTimestamp { timestamp: ((t.timestamp as int + d) % 0x1_0000_0000_0000_0000) as u64 }
}

/// Root distance of `p` at `now`: half the total delay (at least the
/// minimum dispersion) plus the total dispersion, the dispersion accrued
/// since the last sample, and the jitter.
pub open spec fn root_distance_of(p: Peer, now: NtpTimestamp) -> int {
    let delay = clip64(p.last_packet.root_delay.ticks() + p.statistics.delay.ticks());
    let half = div_trunc(max_int(MIN_DISPERSION as int, delay), 2);
    let a = clip64(half + p.last_packet.root_dispersion.ticks());
    let b = clip64(a + p.statistics.dispersion.ticks());
    let c = clip64(b + phi_of(wrap_diff(now.timestamp, p.time.timestamp)));
    clip64(c + p.statistics.jitter.ticks())
}

/// Whether `p` is fit to synchronize to at `now` with the system poll `poll`.
pub open spec fn fit(p: Peer, now: NtpTimestamp, poll: int) -> bool {
    &&& p.last_packet.leap.synchronized()
    &&& p.last_packet.stratum < MAX_STRATUM
    &&& root_distance_of(p, now) <= clip64(ONE_SECOND + phi_of(poll))
    &&& !(p.last_packet.stratum != 1 && p.last_packet.reference_id == p.our_id)
    &&& p.reach.0 != 0
}

/// `p` after a poll update at `now` with the requested interval `requested`.
pub open spec fn polled(p: Peer, now: NtpTimestamp, requested: int) -> Peer {
    let host = clamp_of(exponent_ticks(MIN_POLL as int), requested, exponent_ticks(MAX_POLL as int));
    let p1 = Peer { host_poll: NtpDuration { duration: host as i64 }, ..p };
    if p.burst > 0 && p.next_date != now {
        p1
    } else {
        let next = if p.burst > 0 {
            ts_add(p.next_date, BROADCAST_DELAY as int)
        } else {
            ts_add(
                p.out_date,
                clamp_of(
                    exponent_ticks(MIN_POLL as int),
                    host,
                    exponent_ticks(p.last_packet.poll as int),
                ),
            )
        };
        let next2 = if wrap_diff(next.timestamp, now.timestamp) < 0 {
            ts_add(now, ONE_SECOND as int)
        } else {
            next
        };
        Peer { next_date: next2, ..p1 }
    }
}

/// The header with an unspecified stratum (0) read as unsynchronized (16).
pub open spec fn normalized(p: NtpHeader) -> NtpHeader {
    if p.stratum == 0 {
        NtpHeader { stratum: MAX_STRATUM, ..p }
    } else {
        p
    }
}

/// A header that yields no sample: unsynchronized, of invalid stratum, of
/// too large a root distance, or with a reference time after its transmit time.
pub open spec fn header_rejected(p: NtpHeader) -> bool {
    ||| !p.leap.synchronized()
    ||| p.stratum >= MAX_STRATUM
    ||| clip64(div_trunc(p.root_delay.ticks(), 2) + p.root_dispersion.ticks()) >= MAX_DISPERSION
    ||| wrap_diff(p.reference_timestamp.timestamp, p.transmit_timestamp.timestamp) > 0
}

/// The dispersion of a sample: the server's precision, ours, and phi over `span`.
pub open spec fn sample_dispersion(p: NtpHeader, precision: int, span: int) -> int {
    clip64(clip64(exponent_ticks(p.precision as int) + precision) + phi_of(span))
}

/// Offset of a client/server exchange from its four timestamps.
pub open spec fn symmetric_offset_of(
    t1: NtpTimestamp,
    t2: NtpTimestamp,
    t3: NtpTimestamp,
    t4: NtpTimestamp,
) -> int {
    div_trunc(
        clip64(wrap_diff(t2.timestamp, t1.timestamp) + wrap_diff(t4.timestamp, t3.timestamp)),
        2,
    )
}

/// Round-trip delay of a client/server exchange, before the precision floor.
pub open spec fn symmetric_delay_of(
    t1: NtpTimestamp,
    t2: NtpTimestamp,
    t3: NtpTimestamp,
    t4: NtpTimestamp,
) -> int {
    clip64(wrap_diff(t4.timestamp, t1.timestamp) - wrap_diff(t3.timestamp, t2.timestamp))
}

/// The sample that header `p`, received at `destination`, yields at `now`.
pub open spec fn sample_of(
    p: NtpHeader,
    now: NtpTimestamp,
    precision: int,
    destination: NtpTimestamp,
) -> FilterTuple {
    if p.mode is Broadcast {
        FilterTuple {
            offset: NtpDuration {
                duration: wrap_diff(p.transmit_timestamp.timestamp, destination.timestamp) as i64,
            },
            delay: NtpDuration { duration: BROADCAST_DELAY },
            dispersion: NtpDuration {
                duration: sample_dispersion(p, precision, 2 * BROADCAST_DELAY) as i64,
            },
            time: now,
        }
    } else {
        let t1 = p.origin_timestamp;
        let t2 = p.receive_timestamp;
        let t3 = p.transmit_timestamp;
        FilterTuple {
            offset: NtpDuration { duration: symmetric_offset_of(t1, t2, t3, destination) as i64 },
            delay: NtpDuration {
                duration: max_int(precision, symmetric_delay_of(t1, t2, t3, destination)) as i64,
            },
            dispersion: NtpDuration {
                duration: sample_dispersion(
                    p,
                    precision,
                    wrap_diff(destination.timestamp, t1.timestamp),
                ) as i64,
            },
            time: now,
        }
    }
}

/// `value` held within `[lower_bound, upper_bound]`; where the bounds cross,
/// `lower_bound` wins.
pub fn clamp_ntp_duration(
    lower_bound: NtpDuration,
    value: NtpDuration,
    upper_bound: NtpDuration,
) -> (r: NtpDuration)
    ensures
        r.ticks() == clamp_of(lower_bound.ticks(), value.ticks(), upper_bound.ticks()),
{
    value.min(upper_bound).max(lower_bound)
}

/// Offset of a client/server exchange: half the sum of the two one-way
/// differences.
pub fn symmetric_offset(
    t1: NtpTimestamp,
    t2: NtpTimestamp,
    t3: NtpTimestamp,
    t4: NtpTimestamp,
) -> (r: NtpDuration)
    ensures
        r.ticks() == symmetric_offset_of(t1, t2, t3, t4),
{
    t2.sub(t1).add(t4.sub(t3)).div(2)
}

/// Round-trip delay of a client/server exchange, before the precision floor.
pub fn symmetric_delay(
    t1: NtpTimestamp,
    t2: NtpTimestamp,
    t3: NtpTimestamp,
    t4: NtpTimestamp,
) -> (r: NtpDuration)
    ensures
        r.ticks() == symmetric_delay_of(t1, t2, t3, t4),
{
    t4.sub(t1).sub(t3.sub(t2))
}

impl Peer {
    /// A peer that has seen no packet: all stages dummies, all clocks zero.
    pub fn new(our_id: ReferenceId, peer_id: ReferenceId) -> (r: Peer)
        ensures
            r.statistics.offset.ticks() == 0,
            r.statistics.delay.ticks() == 0,
            r.statistics.dispersion.ticks() == 0,
            r.statistics.jitter.ticks() == 0,
            forall|i: int| 0 <= i < 8 ==> #[trigger] r.last_measurements.register@[i] == crate::filter::dummy_tuple(),
            r.last_packet.stratum == 0,
            r.last_packet.leap == NtpLeapIndicator::NoWarning,
            r.time.timestamp == 0,
            r.our_id == our_id,
            r.peer_id == peer_id,
            r.host_poll.ticks() == 0,
            r.burst == 0,
            r.out_date.timestamp == 0,
            r.next_date.timestamp == 0,
            r.reach.0 == 0,
    {
        Peer {
            statistics: PeerStatistics::new(),
            last_measurements: LastMeasurements::new(),
            last_packet: NtpHeader::new(),
            time: NtpTimestamp::zero(),
            peer_id,
            our_id,
            host_poll: NtpDuration::zero(),
            burst: 0,
            out_date: NtpTimestamp::zero(),
            next_date: NtpTimestamp::zero(),
            reach: Reach(0),
        }
    }

    /// Runs a new sample through the clock filter. The sample enters the
    /// shift register; the stage of smallest delay becomes the peer's
    /// estimate, unless the system is synchronized and that stage is no
    /// newer than the last one used.
    pub fn clock_filter(
        &mut self,
        new_tuple: FilterTuple,
        system_leap_indicator: NtpLeapIndicator,
        system_precision: NtpDuration,
    ) -> (d: Decision)
        ensures
            final(self).last_measurements.register@ == shifted(
                old(self).last_measurements.register@,
                new_tuple,
                phi_of(wrap_diff(new_tuple.time.timestamp, old(self).time.timestamp)),
            ),
            *final(self) == (Peer {
                statistics: final(self).statistics,
                time: final(self).time,
                last_measurements: final(self).last_measurements,
                ..*old(self)
            }),
            exists|v: Seq<FilterTuple>|
                is_sorted_view(v, final(self).last_measurements.register@) && filter_outcome(
                    *old(self),
                    *final(self),
                    v,
                    system_leap_indicator,
                    system_precision.ticks(),
                    d,
                ),
            (system_leap_indicator.synchronized() && wrap_diff(
                new_tuple.time.timestamp,
                old(self).time.timestamp,
            ) <= 0 && forall|i: int|
                0 <= i < 8 ==> wrap_diff(
                    #[trigger] old(self).last_measurements.register@[i].time.timestamp,
                    old(self).time.timestamp,
                ) <= 0) ==> d == Decision::Ignore && final(self).statistics == old(
                self,
            ).statistics && final(self).time == old(self).time,
    {
        broadcast use {group_multiset_axioms, group_multiset_properties, to_multiset_contains};

        let ghost before = *self;
        let dispersion_correction = multiply_by_phi(new_tuple.time.sub(self.time));
        self.last_measurements.shift_and_insert(new_tuple, dispersion_correction);

        let temporary_list = TemporaryList::from_clock_filter_contents(&self.last_measurements);
        let smallest_delay = temporary_list.smallest_delay();
        let ghost v = temporary_list.register@;
        proof {
            let reg = self.last_measurements.register@;
            assert(v.contains(v[0]));
            assert(reg.to_multiset().count(v[0]) > 0);
            assert(reg.contains(v[0]));
        }

        // Prime directive: use a sample only once and never one older than
        // the latest, but anything goes before the first synchronization.
        if smallest_delay.time.sub(self.time).duration <= 0
            && system_leap_indicator.is_synchronized() {
            assert(is_sorted_view(v, self.last_measurements.register@));
            assert(filter_outcome(
                before,
                *self,
                v,
                system_leap_indicator,
                system_precision.ticks(),
                Decision::Ignore,
            ));
            return Decision::Ignore;
        }
        let offset = smallest_delay.offset;
        let delay = smallest_delay.delay;
        let dispersion = temporary_list.dispersion();
        let jitter = temporary_list.jitter(smallest_delay, system_precision);

        self.statistics = PeerStatistics { offset, delay, dispersion, jitter };
        self.time = smallest_delay.time;
        assert(is_sorted_view(v, self.last_measurements.register@));
        assert(filter_outcome(
            before,
            *self,
            v,
            system_leap_indicator,
            system_precision.ticks(),
            Decision::Process,
        ));
        Decision::Process
    }

    /// The root synchronization distance: the largest error, from all
    /// causes, of the local clock relative to the primary server.
    pub fn root_distance(&self, local_clock_time: NtpTimestamp) -> (r: NtpDuration)
        ensures
            r.ticks() == root_distance_of(*self, local_clock_time),
    {
        NtpDuration::min_dispersion().max(self.last_packet.root_delay.add(self.statistics.delay)).div(
            2,
        ).add(self.last_packet.root_dispersion).add(self.statistics.dispersion).add(
            multiply_by_phi(local_clock_time.sub(self.time)),
        ).add(self.statistics.jitter)
    }

    /// Whether this peer is acceptable for synchronization: synchronized,
    /// of valid stratum, within the distance threshold plus one poll
    /// interval of phi, not synchronized to us, and reachable.
    pub fn accept_synchronization(
        &self,
        local_clock_time: NtpTimestamp,
        system_poll: NtpDuration,
    ) -> (r: bool)
        ensures
            r == fit(*self, local_clock_time, system_poll.ticks()),
    {
        if !self.last_packet.leap.is_synchronized() || self.last_packet.stratum >= MAX_STRATUM {
            return false;
        }
        let distance = self.root_distance(local_clock_time);
        if distance.duration > NtpDuration::one().add(multiply_by_phi(system_poll)).duration {
            return false;
        }
        // A peer that takes its time from us would close a loop; a primary
        // server's reference id names its hardware, so it is exempt.
        if self.last_packet.stratum != 1 && self.last_packet.reference_id.id == self.our_id.id {
            return false;
        }
        self.reach.is_reachable()
    }

    /// Updates the poll interval and the date of the next poll.
    pub fn poll_update(&mut self, local_clock_time: NtpTimestamp, poll_interval: NtpDuration)
        ensures
            *final(self) == polled(*old(self), local_clock_time, poll_interval.ticks()),
    {
        self.host_poll = clamp_ntp_duration(
            NtpDuration::from_exponent(MIN_POLL),
            poll_interval,
            NtpDuration::from_exponent(MAX_POLL),
        );
        if self.burst > 0 {
            if self.next_date != local_clock_time {
                return;
            } else {
                self.next_date = self.next_date.add(NtpDuration::from_bits(BROADCAST_DELAY));
            }
        } else {
            let offset = clamp_ntp_duration(
                NtpDuration::from_exponent(MIN_POLL),
                self.host_poll,
                NtpDuration::from_exponent(self.last_packet.poll),
            );
            self.next_date = self.out_date.add(offset);
        }
        if self.next_date.before(local_clock_time) {
            self.next_date = local_clock_time.add(NtpDuration::one());
        }
    }

    /// Takes in a decoded header received at `destination_timestamp` and
    /// computes its sample, or none where the header is unusable. The
    /// header is kept as the last packet either way.
    pub fn update_with_packet(
        &mut self,
        local_clock_time: NtpTimestamp,
        system_precision: NtpDuration,
        packet: NtpHeader,
        destination_timestamp: NtpTimestamp,
    ) -> (r: Option<FilterTuple>)
        ensures
            header_rejected(normalized(packet)) ==> r is None && *final(self) == (Peer {
                last_packet: normalized(packet),
                ..*old(self)
            }),
            !header_rejected(normalized(packet)) ==> {
                let p1 = Peer { last_packet: normalized(packet), ..*old(self) };
                let p2 = polled(p1, local_clock_time, old(self).host_poll.ticks());
                &&& r == Some(
                    sample_of(
                        normalized(packet),
                        local_clock_time,
                        system_precision.ticks(),
                        destination_timestamp,
                    ),
                )
                &&& *final(self) == (Peer { reach: Reach(old(self).reach.0 | 1), ..p2 })
            },
    {
        let mut packet = packet;
        // Stratum 0 (unspecified) is read as unsynchronized, which keeps the
        // stratum comparisons uniform.
        if packet.stratum == 0 {
            packet.stratum = MAX_STRATUM;
        }
        self.last_packet = packet;

        if !self.last_packet.leap.is_synchronized() || self.last_packet.stratum >= MAX_STRATUM {
            return None;
        }
        let packet_dispersion = self.last_packet.root_delay.div(2).add(
            self.last_packet.root_dispersion,
        );
        let time_travel = self.last_packet.reference_timestamp.sub(
            self.last_packet.transmit_timestamp,
        ).duration > 0;
        if packet_dispersion.duration >= MAX_DISPERSION || time_travel {
            return None;
        }

        let poll_interval = self.host_poll;
        self.poll_update(local_clock_time, poll_interval);
        self.reach.update();

        let r = self.last_packet;
        let packet_precision = NtpDuration::from_exponent(r.precision);
        let tuple = match r.mode {
            NtpAssociationMode::Broadcast => {
                let offset = r.transmit_timestamp.sub(destination_timestamp);
                let delay = NtpDuration::from_bits(BROADCAST_DELAY);
                let dispersion = packet_precision.add(system_precision).add(
                    multiply_by_phi(NtpDuration::from_bits(2 * BROADCAST_DELAY)),
                );
                FilterTuple { offset, delay, dispersion, time: local_clock_time }
            },
            _ => {
                let offset = symmetric_offset(
                    r.origin_timestamp,
                    r.receive_timestamp,
                    r.transmit_timestamp,
                    destination_timestamp,
                );
                let delta1 = destination_timestamp.sub(r.origin_timestamp);
                let delay = system_precision.max(
                    symmetric_delay(
                        r.origin_timestamp,
                        r.receive_timestamp,
                        r.transmit_timestamp,
                        destination_timestamp,
                    ),
                );
                let dispersion = packet_precision.add(system_precision).add(
                    multiply_by_phi(delta1),
                );
                FilterTuple { offset, delay, dispersion, time: local_clock_time }
            },
        };
        Some(tuple)
    }
}

/// The root distance is at least half the minimum dispersion, for a peer
/// whose dispersions and jitter are not negative and whose last sample is
/// not in the future.
pub proof fn lemma_root_distance_floor(p: Peer, now: NtpTimestamp)
    requires
        p.last_packet.root_dispersion.ticks() >= 0,
        p.statistics.dispersion.ticks() >= 0,
        p.statistics.jitter.ticks() >= 0,
        wrap_diff(now.timestamp, p.time.timestamp) >= 0,
    ensures
        root_distance_of(p, now) >= MIN_DISPERSION / 2,
{
}

/// Exchanging the roles of the two sides of a client/server exchange,
/// `(T1, T4)` with `(T2, T3)`, negates the offset, where neither one-way
/// difference is the most negative duration and their sum does not saturate.
pub proof fn lemma_symmetric_offset_negates(
    t1: NtpTimestamp,
    t2: NtpTimestamp,
    t3: NtpTimestamp,
    t4: NtpTimestamp,
)
    requires
        wrap_diff(t2.timestamp, t1.timestamp) != i64::MIN,
        wrap_diff(t4.timestamp, t3.timestamp) != i64::MIN,
        i64::MIN < wrap_diff(t2.timestamp, t1.timestamp) + wrap_diff(t4.timestamp, t3.timestamp)
            <= i64::MAX,
    ensures
        symmetric_offset_of(t2, t1, t4, t3) == -symmetric_offset_of(t1, t2, t3, t4),
{
    lemma_wrap_diff_negates(t2.timestamp, t1.timestamp);
    lemma_wrap_diff_negates(t4.timestamp, t3.timestamp);
}

proof fn lemma_wrap_diff_negates(a: u64, b: u64)
    requires
        wrap_diff(a, b) != i64::MIN,
    ensures
        wrap_diff(b, a) == -wrap_diff(a, b),
{
    let m: int = 0x1_0000_0000_0000_0000;
    let x = a as int - b as int;
    if x >= 0 {
        assert(x % m == x);
        if x == 0 {
            assert((-x) % m == 0);
        } else {
            assert((-x) % m == m - x) by {
                vstd::arithmetic::div_mod::lemma_fundamental_div_mod_converse(-x, m, -1, m - x);
            }
        }
    } else {
        assert(x % m == m + x) by {
            vstd::arithmetic::div_mod::lemma_fundamental_div_mod_converse(x, m, -1, m + x);
        }
        assert((-x) % m == -x);
    }
}

} // verus!
