use ntp_proto::time::{NtpDuration, NtpTimestamp};

#[test]
fn timestamp_difference_wraps() {
    let a = NtpTimestamp::from_bits(5);
    let b = NtpTimestamp::from_bits(u64::MAX - 4);
    assert_eq!(a.sub(b).to_bits(), 10);
    assert_eq!(b.sub(a).to_bits(), -10);
    assert!(b.before(a));
    assert!(!a.before(b));
}

#[test]
fn timestamp_addition_wraps() {
    let t = NtpTimestamp::from_bits(u64::MAX);
    assert_eq!(t.add(NtpDuration::from_bits(2)).to_bits(), 1);
    assert_eq!(NtpTimestamp::from_bits(1).add(NtpDuration::from_bits(-2)).to_bits(), u64::MAX);
}

#[test]
fn duration_arithmetic_saturates() {
    let big = NtpDuration::from_bits(i64::MAX - 1);
    assert_eq!(big.add(NtpDuration::from_bits(10)).to_bits(), i64::MAX);
    assert_eq!(NtpDuration::from_bits(i64::MIN).sub(NtpDuration::from_bits(1)).to_bits(), i64::MIN);
    assert_eq!(big.mul(3).to_bits(), i64::MAX);
    assert_eq!(NtpDuration::from_bits(7).mul(-3).to_bits(), -21);
}

#[test]
fn duration_division_truncates() {
    assert_eq!(NtpDuration::from_bits(7).div(2).to_bits(), 3);
    assert_eq!(NtpDuration::from_bits(-7).div(2).to_bits(), -3);
    assert_eq!(NtpDuration::from_bits(i64::MIN).div(1).to_bits(), i64::MIN);
}

#[test]
fn exponent_durations() {
    assert_eq!(NtpDuration::from_exponent(0).to_bits(), 1i64 << 32);
    assert_eq!(NtpDuration::from_exponent(4).to_bits(), 16i64 << 32);
    assert_eq!(NtpDuration::from_exponent(-32).to_bits(), 1);
    assert_eq!(NtpDuration::from_exponent(-33).to_bits(), 0);
    assert_eq!(NtpDuration::from_exponent(30).to_bits(), 1i64 << 62);
    assert_eq!(NtpDuration::from_exponent(31).to_bits(), i64::MAX);
}

#[test]
fn min_and_max() {
    let a = NtpDuration::from_bits(3);
    let b = NtpDuration::from_bits(-4);
    assert_eq!(a.max(b), a);
    assert_eq!(a.min(b), b);
}
