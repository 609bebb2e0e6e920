use ntp_proto::filter::FilterTuple;
use ntp_proto::packet::{NtpAssociationMode, NtpHeader, NtpLeapIndicator, ReferenceId};
use ntp_proto::peer::{
    clamp_ntp_duration, symmetric_delay, symmetric_offset, Decision, Peer, Reach, BROADCAST_DELAY,
};
use ntp_proto::time::{NtpDuration, NtpTimestamp};

fn secs(s: u64) -> NtpTimestamp {
    NtpTimestamp::from_bits(s << 32)
}

fn good_header() -> NtpHeader {
    let mut h = NtpHeader::new();
    h.stratum = 2;
    h.precision = -20;
    h.poll = 6;
    h.reference_id = ReferenceId::from_int(0x0a00_0001);
    h.reference_timestamp = secs(5);
    h.origin_timestamp = secs(10);
    h.receive_timestamp = secs(11);
    h.transmit_timestamp = secs(12);
    h
}

fn peer() -> Peer {
    Peer::new(ReferenceId::from_int(7), ReferenceId::from_int(9))
}

#[test]
fn client_sample() {
    let mut p = peer();
    let t = p.update_with_packet(secs(100), NtpDuration::zero(), good_header(), secs(15));
    let t = t.unwrap();
    assert_eq!(t.offset.to_bits(), 2i64 << 32);
    assert_eq!(t.delay.to_bits(), 4i64 << 32);
    assert_eq!(t.dispersion.to_bits(), 4096 + 322122);
    assert_eq!(t.time, secs(100));
    assert!(p.reach.is_reachable());
}

#[test]
fn client_delay_floored_at_precision() {
    let mut p = peer();
    let mut h = good_header();
    h.receive_timestamp = secs(20);
    h.transmit_timestamp = secs(30);
    let t = p.update_with_packet(secs(100), NtpDuration::from_bits(123), h, secs(15)).unwrap();
    assert_eq!(t.delay.to_bits(), 123);
}

#[test]
fn broadcast_sample() {
    let mut p = peer();
    let mut h = good_header();
    h.mode = NtpAssociationMode::Broadcast;
    h.transmit_timestamp = secs(50);
    let destination = NtpTimestamp::from_bits((50u64 << 32) - BROADCAST_DELAY as u64);
    let t = p.update_with_packet(secs(100), NtpDuration::zero(), h, destination).unwrap();
    assert_eq!(t.offset.to_bits(), BROADCAST_DELAY);
    assert_eq!(t.delay.to_bits(), BROADCAST_DELAY);
    assert_eq!(t.dispersion.to_bits(), 4096 + 515);
}

#[test]
fn unsynchronized_header_is_rejected() {
    let mut p = peer();
    let mut h = good_header();
    h.leap = NtpLeapIndicator::Unsynchronized;
    assert!(p.update_with_packet(secs(100), NtpDuration::zero(), h, secs(15)).is_none());
    assert_eq!(p.last_packet, h);
    assert!(!p.reach.is_reachable());
}

#[test]
fn stratum_zero_reads_as_unsynchronized() {
    let mut p = peer();
    let mut h = good_header();
    h.stratum = 0;
    assert!(p.update_with_packet(secs(100), NtpDuration::zero(), h, secs(15)).is_none());
    assert_eq!(p.last_packet.stratum, 16);
}

#[test]
fn large_root_distance_is_rejected() {
    let mut p = peer();
    let mut h = good_header();
    h.root_dispersion = NtpDuration::from_bits(16i64 << 32);
    assert!(p.update_with_packet(secs(100), NtpDuration::zero(), h, secs(15)).is_none());
}

#[test]
fn time_travel_is_rejected() {
    let mut p = peer();
    let mut h = good_header();
    h.reference_timestamp = secs(13);
    assert!(p.update_with_packet(secs(100), NtpDuration::zero(), h, secs(15)).is_none());
}

#[test]
fn poll_is_never_scheduled_in_the_past() {
    let mut p = peer();
    p.update_with_packet(secs(100), NtpDuration::zero(), good_header(), secs(15));
    assert_eq!(p.host_poll.to_bits(), 16i64 << 32);
    assert_eq!(p.next_date, secs(101));
}

#[test]
fn poll_follows_out_date() {
    let mut p = peer();
    p.last_packet.poll = 6;
    p.out_date = secs(1000);
    p.poll_update(secs(100), NtpDuration::from_bits(100i64 << 32));
    assert_eq!(p.host_poll.to_bits(), 100i64 << 32);
    assert_eq!(p.next_date, secs(1064));
}

#[test]
fn poll_in_burst() {
    let mut p = peer();
    p.burst = 1;
    p.next_date = secs(100);
    p.poll_update(secs(100), NtpDuration::zero());
    assert_eq!(p.next_date.to_bits(), (100u64 << 32) + BROADCAST_DELAY as u64);

    p.poll_update(secs(100), NtpDuration::zero());
    assert_eq!(p.next_date.to_bits(), (100u64 << 32) + BROADCAST_DELAY as u64);
}

#[test]
fn root_distance_of_fresh_peer() {
    let p = peer();
    assert_eq!(p.root_distance(NtpTimestamp::zero()).to_bits(), 32768);
    assert_eq!(p.root_distance(secs(1_000_000)).to_bits(), 32768 + ((1_000_000i64 << 32) * 15 / 1_000_000));
}

/// A peer after eight zero-delay exchanges, one a second from 100 s to 107 s.
fn synced_peer(header: NtpHeader) -> Peer {
    let mut header = header;
    header.receive_timestamp = secs(10);
    header.transmit_timestamp = secs(10);
    let mut p = peer();
    for k in 0..8 {
        let t = p.update_with_packet(secs(100 + k), NtpDuration::zero(), header, secs(10)).unwrap();
        let d = p.clock_filter(t, NtpLeapIndicator::NoWarning, NtpDuration::zero());
        assert_eq!(d, Decision::Process);
    }
    p
}

#[test]
fn fit_peer_is_accepted() {
    let p = synced_peer(good_header());
    assert!(p.accept_synchronization(secs(107), NtpDuration::zero()));
}

#[test]
fn peer_synchronized_to_us_is_refused() {
    let mut h = good_header();
    h.reference_id = ReferenceId::from_int(7);
    let p = synced_peer(h);
    assert!(!p.accept_synchronization(secs(107), NtpDuration::zero()));

    h.stratum = 1;
    let p = synced_peer(h);
    assert!(p.accept_synchronization(secs(107), NtpDuration::zero()));
}

#[test]
fn unreachable_peer_is_refused() {
    let mut p = synced_peer(good_header());
    p.reach = Reach(0);
    assert!(!p.accept_synchronization(secs(107), NtpDuration::zero()));
}

#[test]
fn distant_peer_is_refused() {
    let mut h = good_header();
    h.root_delay = NtpDuration::from_bits(4i64 << 32);
    let p = synced_peer(h);
    assert!(!p.accept_synchronization(secs(107), NtpDuration::zero()));
}

#[test]
fn stale_sample_is_ignored_when_synchronized() {
    let mut p = synced_peer(good_header());
    let before = p.statistics;
    let old = FilterTuple {
        offset: NtpDuration::from_bits(1),
        delay: NtpDuration::from_bits(-1),
        dispersion: NtpDuration::zero(),
        time: secs(50),
    };
    assert_eq!(p.clock_filter(old, NtpLeapIndicator::NoWarning, NtpDuration::zero()), Decision::Ignore);
    assert_eq!(p.statistics, before);
    assert_eq!(p.time, secs(107));
    assert_eq!(p.last_measurements.register[0], old);
}

#[test]
fn stale_sample_is_used_before_synchronization() {
    let mut p = synced_peer(good_header());
    let old = FilterTuple {
        offset: NtpDuration::from_bits(1),
        delay: NtpDuration::from_bits(-1),
        dispersion: NtpDuration::zero(),
        time: secs(50),
    };
    assert_eq!(
        p.clock_filter(old, NtpLeapIndicator::Unsynchronized, NtpDuration::zero()),
        Decision::Process
    );
    assert_eq!(p.time, secs(50));
    assert_eq!(p.statistics.offset.to_bits(), 1);
}

#[test]
fn clamp_bounds() {
    let lo = NtpDuration::from_bits(10);
    let hi = NtpDuration::from_bits(20);
    assert_eq!(clamp_ntp_duration(lo, NtpDuration::from_bits(5), hi).to_bits(), 10);
    assert_eq!(clamp_ntp_duration(lo, NtpDuration::from_bits(15), hi).to_bits(), 15);
    assert_eq!(clamp_ntp_duration(lo, NtpDuration::from_bits(25), hi).to_bits(), 20);
    assert_eq!(clamp_ntp_duration(hi, NtpDuration::from_bits(15), lo).to_bits(), 20);
}

#[test]
fn reach_update_sets_low_bit() {
    let mut r = Reach(0b100);
    r.update();
    assert_eq!(r.0, 0b101);
    assert!(r.is_reachable());
    assert!(!Reach(0).is_reachable());
}

#[test]
fn swapping_sides_negates_the_offset() {
    let (t1, t2, t3, t4) = (secs(10), secs(13), secs(14), secs(16));
    let forward = symmetric_offset(t1, t2, t3, t4);
    let swapped = symmetric_offset(t2, t1, t4, t3);
    assert_eq!(forward.to_bits(), 5i64 << 31);
    assert_eq!(swapped.to_bits(), -(5i64 << 31));
    assert_eq!(symmetric_delay(t1, t2, t3, t4).to_bits(), 5i64 << 32);
    assert_eq!(symmetric_delay(t2, t1, t4, t3).to_bits(), -(5i64 << 32));
}

#[test]
fn root_distance_at_least_half_min_dispersion() {
    let mut p = peer();
    p.statistics.delay = NtpDuration::from_bits(-1_000_000);
    assert!(p.root_distance(secs(0)).to_bits() >= 32768);
    let p = synced_peer(good_header());
    assert!(p.root_distance(secs(107)).to_bits() >= 32768);
}
