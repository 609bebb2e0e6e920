use ntp_proto::filter::{multiply_by_phi, FilterTuple, LastMeasurements, TemporaryList};
use ntp_proto::packet::{NtpLeapIndicator, ReferenceId};
use ntp_proto::peer::{Decision, Peer};
use ntp_proto::time::{NtpDuration, NtpTimestamp};

fn from_seconds(s: f64) -> NtpDuration {
    NtpDuration::from_bits((s * 4294967296.0) as i64)
}

fn to_seconds(d: NtpDuration) -> f64 {
    d.to_bits() as f64 / 4294967296.0
}

fn tuple(offset: i64, delay: i64, dispersion: i64, time: u64) -> FilterTuple {
    FilterTuple {
        offset: NtpDuration::from_bits(offset),
        delay: NtpDuration::from_bits(delay),
        dispersion: NtpDuration::from_bits(dispersion),
        time: NtpTimestamp::from_bits(time),
    }
}

#[test]
fn dispersion_of_dummys() {
    let register = TemporaryList::new();
    let value = to_seconds(register.dispersion());

    assert!((16.0 - value) < 0.1)
}

#[test]
fn dummys_are_not_valid() {
    assert!(TemporaryList::new().valid_tuples().is_empty())
}

#[test]
fn jitter_of_single() {
    let mut register = LastMeasurements::new();
    register.register[0].offset = from_seconds(42.0);
    let first = register.register[0];
    let value = TemporaryList::from_clock_filter_contents(&register).jitter(first, NtpDuration::zero());

    assert_eq!(to_seconds(value), 0.0)
}

#[test]
fn jitter_of_pair() {
    let mut register = TemporaryList::new();
    register.register[0].offset = from_seconds(20.0);
    register.register[1].offset = from_seconds(30.0);
    let first = register.register[0];
    let value = register.jitter(first, NtpDuration::zero());

    assert!((to_seconds(value) - 10.0).abs() < 1e-6)
}

#[test]
fn jitter_of_triple() {
    let mut register = TemporaryList::new();
    register.register[0].offset = from_seconds(20.0);
    register.register[1].offset = from_seconds(20.0);
    register.register[2].offset = from_seconds(30.0);
    let first = register.register[0];
    let value = register.jitter(first, NtpDuration::zero());

    assert!((to_seconds(value) - 5.0).abs() < 1e-6)
}

#[test]
fn clock_filter_defaults() {
    let leap_indicator = NtpLeapIndicator::NoWarning;
    let system_precision = NtpDuration::zero();

    let new_tuple = tuple(0, 0, 0, 0);
    let mut peer = Peer::new(ReferenceId::from_int(0), ReferenceId::from_int(0));

    let update = peer.clock_filter(new_tuple, leap_indicator, system_precision);

    assert!(matches!(update, Decision::Ignore));
}

#[test]
fn clock_filter_new() {
    let leap_indicator = NtpLeapIndicator::NoWarning;
    let system_precision = NtpDuration::zero();

    let new_tuple = FilterTuple {
        offset: from_seconds(12.0),
        delay: from_seconds(14.0),
        dispersion: NtpDuration::zero(),
        time: NtpTimestamp::from_bits(1u64 << 32),
    };
    let mut peer = Peer::new(ReferenceId::from_int(0), ReferenceId::from_int(0));

    let update = peer.clock_filter(new_tuple, leap_indicator, system_precision);

    assert!(matches!(update, Decision::Process));

    assert_eq!(peer.statistics.offset, new_tuple.offset);
    assert_eq!(peer.statistics.delay, new_tuple.delay);
    assert_eq!(peer.time, new_tuple.time);

    // there is just one valid sample
    assert_eq!(to_seconds(peer.statistics.jitter), 0.0);

    let temporary = TemporaryList::from_clock_filter_contents(&peer.last_measurements);

    assert_eq!(temporary.register[0], new_tuple);
    assert_eq!(temporary.valid_tuples(), &[new_tuple]);
}

#[test]
fn dummy_dispersion_is_exact() {
    assert_eq!(TemporaryList::new().dispersion().to_bits(), 68451041280);
    let value = to_seconds(TemporaryList::new().dispersion());
    assert!(value >= 15.9 && value < 16.0);
}

#[test]
fn shift_ages_and_moves_stages() {
    let mut register = LastMeasurements::new();
    let a = tuple(1, 2, 100, 7);
    register.shift_and_insert(a, NtpDuration::from_bits(5));
    assert_eq!(register.register[0], a);
    assert!(register.register[1].is_dummy());

    let b = tuple(3, 4, 200, 9);
    register.shift_and_insert(b, NtpDuration::from_bits(5));
    assert_eq!(register.register[0], b);
    assert_eq!(register.register[1], tuple(1, 2, 105, 7));
    for i in 2..8 {
        assert!(register.register[i].is_dummy());
    }
}

#[test]
fn shift_drops_the_oldest() {
    let mut register = LastMeasurements::new();
    for k in 0..9i64 {
        register.shift_and_insert(tuple(k, k, 0, k as u64), NtpDuration::zero());
    }
    assert_eq!(register.register[0].offset.to_bits(), 8);
    assert_eq!(register.register[7].offset.to_bits(), 1);
}

#[test]
fn sorted_view_orders_by_delay() {
    let mut register = LastMeasurements::new();
    register.shift_and_insert(tuple(1, 300, 0, 1), NtpDuration::zero());
    register.shift_and_insert(tuple(2, 100, 0, 2), NtpDuration::zero());
    register.shift_and_insert(tuple(3, 200, 0, 3), NtpDuration::zero());
    let view = TemporaryList::from_clock_filter_contents(&register);
    assert_eq!(view.smallest_delay().offset.to_bits(), 2);
    assert_eq!(view.register[1].offset.to_bits(), 3);
    assert_eq!(view.register[2].offset.to_bits(), 1);
    assert_eq!(view.valid_tuples().len(), 3);
}

#[test]
fn jitter_is_floored_at_precision() {
    let mut register = TemporaryList::new();
    register.register[0].offset = from_seconds(20.0);
    register.register[1].offset = from_seconds(30.0);
    let first = register.register[0];
    let value = register.jitter(first, from_seconds(11.0));
    assert_eq!(value, from_seconds(11.0));
}

#[test]
fn jitter_of_singleton_is_precision_or_zero() {
    let mut register = TemporaryList::new();
    register.register[0].offset = from_seconds(3.0);
    let first = register.register[0];
    assert_eq!(register.jitter(first, NtpDuration::from_bits(77)).to_bits(), 77);
    assert_eq!(register.jitter(first, NtpDuration::from_bits(-77)).to_bits(), 0);
}

#[test]
fn phi_is_fifteen_ppm() {
    assert_eq!(multiply_by_phi(NtpDuration::from_bits(1_000_000)).to_bits(), 15);
    assert_eq!(multiply_by_phi(NtpDuration::from_bits(-2_000_000)).to_bits(), -30);
    assert_eq!(multiply_by_phi(NtpDuration::from_bits(66_666)).to_bits(), 0);
}

#[test]
fn dummy_is_recognised() {
    assert!(FilterTuple::dummy().is_dummy());
    assert!(!tuple(0, 0, 0, 0).is_dummy());
}
