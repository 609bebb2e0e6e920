use ntp_proto::packet::ReferenceId;
use ntp_proto::peer::Peer;
use ntp_proto::select::{construct_candidate_list, find_interval, CandidateTuple, EndpointType, INTERVAL_SENTINEL};
use ntp_proto::time::{NtpDuration, NtpTimestamp};

fn candidate(peer: usize, endpoint_type: EndpointType, tenths: i64) -> CandidateTuple {
    CandidateTuple { peer, endpoint_type, edge: NtpDuration::from_bits((tenths << 32) / 10) }
}

#[test]
fn candidate_list_is_sorted() {
    let mut a = Peer::new(ReferenceId::from_int(0), ReferenceId::from_int(1));
    a.statistics.offset = NtpDuration::from_bits(1_000_000);
    let mut b = Peer::new(ReferenceId::from_int(0), ReferenceId::from_int(2));
    b.statistics.offset = NtpDuration::from_bits(-1_000_000);
    let now = NtpTimestamp::zero();
    let list = construct_candidate_list(&[a, b], now);
    assert_eq!(list.len(), 6);
    for w in list.windows(2) {
        assert!(w[0].edge.to_bits() <= w[1].edge.to_bits());
    }
    // the root distance of a fresh peer is half the minimum dispersion
    let edges: Vec<i64> = list.iter().map(|c| c.edge.to_bits()).collect();
    assert_eq!(edges, vec![-1_032_768, -1_000_000, -967_232, 967_232, 1_000_000, 1_032_768]);
    assert_eq!(list[0].peer, 1);
    assert!(matches!(list[0].endpoint_type, EndpointType::Lower));
    assert!(matches!(list[4].endpoint_type, EndpointType::Middle));
    assert_eq!(list[5].peer, 0);
}

#[test]
fn empty_chime_list() {
    let (low, high) = find_interval(&[]);
    assert_eq!(low.to_bits(), INTERVAL_SENTINEL);
    assert_eq!(high.to_bits(), -INTERVAL_SENTINEL);
}

#[test]
fn intersection_with_one_falseticker() {
    // intervals [-1, 1], [-0.9, 1.1] and [10, 12] seconds
    let chime = [
        candidate(0, EndpointType::Lower, -10),
        candidate(1, EndpointType::Lower, -9),
        candidate(0, EndpointType::Middle, 0),
        candidate(1, EndpointType::Middle, 1),
        candidate(0, EndpointType::Upper, 10),
        candidate(1, EndpointType::Upper, 11),
        candidate(2, EndpointType::Lower, 100),
        candidate(2, EndpointType::Middle, 110),
        candidate(2, EndpointType::Upper, 120),
    ];
    let (low, high) = find_interval(&chime);
    // with the sweep threshold taken from the length of the chime list, no
    // round reaches it: the interval stays the empty starting one
    assert!(high.to_bits() <= low.to_bits());
    assert_eq!(low.to_bits(), INTERVAL_SENTINEL);
    assert_eq!(high.to_bits(), -INTERVAL_SENTINEL);
}

#[test]
fn lower_sweep_takes_the_edge_that_reaches_the_threshold() {
    let chime = [candidate(0, EndpointType::Lower, 10), candidate(1, EndpointType::Lower, 20)];
    let (low, high) = find_interval(&chime);
    assert_eq!(low.to_bits(), (20i64 << 32) / 10);
    assert_eq!(high.to_bits(), -INTERVAL_SENTINEL);
}
