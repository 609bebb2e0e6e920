use crate::peer::{root_distance_of, Peer};
use crate::time::{clip64, NtpDuration, NtpTimestamp};
use vstd::multiset::{group_multiset_axioms, group_multiset_properties, Multiset};
use vstd::prelude::*;
use vstd::seq_lib::{to_multiset_contains, to_multiset_update};

verus! {

/// Which edge of a correctness interval a candidate marks.
#[derive(Clone, Copy, Debug, PartialEq, Eq, Structural)]
pub enum EndpointType {
    Upper,
    Middle,
    Lower,
}

/// +1 for an upper edge, 0 for a midpoint, -1 for a lower edge.
pub open spec fn weight(e: EndpointType) -> int {
    match e {
        EndpointType::Upper => 1,
        EndpointType::Middle => 0,
        EndpointType::Lower => -1,
    }
}

/// One edge of the correctness interval of the peer at index `peer`.
#[derive(Clone, Copy, Debug, PartialEq, Eq, Structural)]
pub struct CandidateTuple {
    pub peer: usize,
    pub endpoint_type: EndpointType,
    pub edge: NtpDuration,
}

/// The three edges of the correctness interval of peer `i`.
pub open spec fn edges_of(p: Peer, i: int, now: NtpTimestamp) -> Seq<CandidateTuple> {
    let offset = p.statistics.offset.ticks();
    let rd = root_distance_of(p, now);
    seq![
        CandidateTuple {
            peer: i as usize,
            endpoint_type: EndpointType::Upper,
            edge: NtpDuration { duration: clip64(offset + rd) as i64 },
        },
        CandidateTuple {
            peer: i as usize,
            endpoint_type: EndpointType::Middle,
            edge: p.statistics.offset,
        },
        CandidateTuple {
            peer: i as usize,
            endpoint_type: EndpointType::Lower,
            edge: NtpDuration { duration: clip64(offset - rd) as i64 },
        },
    ]
}

/// The edges of the first `k` peers, in order.
pub open spec fn candidates(peers: Seq<Peer>, k: nat, now: NtpTimestamp) -> Seq<CandidateTuple>
    decreases k,
{
    if k == 0 {
        seq![]
    } else {
        candidates(peers, (k - 1) as nat, now) + edges_of(peers[k - 1], k - 1, now)
    }
}

pub open spec fn sorted_by_edge(s: Seq<CandidateTuple>) -> bool {
    forall|i: int, j: int|
        0 <= i < j < s.len() ==> #[trigger] s[i].edge.ticks() <= #[trigger] s[j].edge.ticks()
}

/// The chime list: the three edges of each peer's correctness interval,
/// sorted by edge from lowest to highest.
pub fn construct_candidate_list(valid_associations: &[Peer], local_clock_time: NtpTimestamp) -> (r:
    Vec<CandidateTuple>)
    ensures
        sorted_by_edge(r@),
        r@.to_multiset() == candidates(
            valid_associations@,
            valid_associations@.len(),
            local_clock_time,
        ).to_multiset(),
{
    broadcast use {group_multiset_axioms, group_multiset_properties, to_multiset_update};

    let mut candidate_list: Vec<CandidateTuple> = Vec::new();
    let mut k: usize = 0;
    while k < valid_associations.len()
        invariant
            k <= valid_associations@.len(),
            candidate_list@ == candidates(valid_associations@, k as nat, local_clock_time),
        decreases valid_associations@.len() - k,
    {
        let peer = &valid_associations[k];
        let offset = peer.statistics.offset;
        let distance = peer.root_distance(local_clock_time);
        candidate_list.push(
            CandidateTuple { peer: k, endpoint_type: EndpointType::Upper, edge: offset.add(distance) },
        );
        candidate_list.push(
            CandidateTuple { peer: k, endpoint_type: EndpointType::Middle, edge: offset },
        );
        candidate_list.push(
            CandidateTuple { peer: k, endpoint_type: EndpointType::Lower, edge: offset.sub(distance) },
        );
        assert(candidate_list@ =~= candidates(valid_associations@, (k + 1) as nat, local_clock_time));
        k = k + 1;
    }
    let ghost orig = candidate_list@;
    let n = candidate_list.len();
    if n == 0 {
        return candidate_list;
    }
    let mut i: usize = 1;
    while i < n
        invariant
            1 <= i <= n,
            n == candidate_list@.len(),
            forall|a: int, b: int|
                0 <= a < b < i ==> #[trigger] candidate_list@[a].edge.ticks()
                    <= #[trigger] candidate_list@[b].edge.ticks(),
            candidate_list@.to_multiset() == orig.to_multiset(),
        decreases n - i,
    {
        let mut j: usize = i;
        while j > 0 && candidate_list[j - 1].edge.duration > candidate_list[j].edge.duration
            invariant
                0 <= j <= i < n,
                n == candidate_list@.len(),
                candidate_list@.to_multiset() == orig.to_multiset(),
                forall|a: int, b: int|
                    0 <= a < b <= i && a != j && b != j ==> #[trigger] candidate_list@[a].edge.ticks()
                        <= #[trigger] candidate_list@[b].edge.ticks(),
                forall|b: int|
                    j < b <= i ==> candidate_list@[j as int].edge.ticks()
                        < #[trigger] candidate_list@[b].edge.ticks(),
            decreases j,
        {
            let ghost s = candidate_list@;
            let t = candidate_list[j - 1];
            let u = candidate_list[j];
            candidate_list.set(j - 1, u);
            candidate_list.set(j, t);
            proof {
                let s1 = s.update(j - 1, s[j as int]);
                assert(candidate_list@ == s1.update(j as int, s[j - 1]));
                to_multiset_update(s, j - 1, s[j as int]);
                to_multiset_update(s1, j as int, s[j - 1]);
                assert(s.contains(s[j - 1]));
                assert(s.contains(s[j as int]));
                to_multiset_contains(s, s[j - 1]);
                to_multiset_contains(s, s[j as int]);
                assert(candidate_list@.to_multiset() =~= s.to_multiset());
            }
            j = j - 1;
        }
        proof {
            assert forall|a: int, b: int| 0 <= a < b <= i implies #[trigger] candidate_list@[a].edge.ticks()
                <= #[trigger] candidate_list@[b].edge.ticks() by {
                if b == j && a < j - 1 {
                    assert(candidate_list@[a].edge.ticks() <= candidate_list@[j - 1].edge.ticks());
                }
            }
        }
        i = i + 1;
    }
    candidate_list
}

/// The starting interval, empty and wider than any edge: 2e9 seconds.
pub const INTERVAL_SENTINEL: i64 = 8589934592000000000;

/// The sweep from the lowest edge up, resumed at index `i` with running
/// `chime` and `found` midpoints: where the chime first reaches
/// `|c| - found`, if anywhere, and the midpoints passed before that.
pub open spec fn lower_sweep(c: Seq<CandidateTuple>, i: int, chime: int, found: int) -> (
    Option<int>,
    int,
)
    decreases c.len() - i,
{
    if i < 0 || i >= c.len() {
        (None, found)
    } else {
        let ch = chime - weight(c[i].endpoint_type);
        if ch >= c.len() - found {
            (Some(i), found)
        } else {
            lower_sweep(
                c,
                i + 1,
                ch,
                if c[i].endpoint_type is Middle {
                    found + 1
                } else {
                    found
                },
            )
        }
    }
}

/// The sweep from the highest edge down, over the first `k` entries.
pub open spec fn upper_sweep(c: Seq<CandidateTuple>, k: int, chime: int, found: int) -> (
    Option<int>,
    int,
)
    decreases k,
{
    if k <= 0 || k > c.len() {
        (None, found)
    } else {
        let ch = chime + weight(c[k - 1].endpoint_type);
        if ch >= c.len() - found {
            (Some(k - 1), found)
        } else {
            upper_sweep(
                c,
                k - 1,
                ch,
                if c[k - 1].endpoint_type is Middle {
                    found + 1
                } else {
                    found
                },
            )
        }
    }
}

/// One round of both sweeps: the new low and high edges (kept where a
/// sweep finds none) and the midpoints counted.
pub open spec fn sweep_round(c: Seq<CandidateTuple>, low: int, high: int) -> (int, int, int) {
    let (li, f1) = lower_sweep(c, 0, 0, 0);
    let low2 = match li {
        Some(i) => c[i].edge.ticks(),
        None => low,
    };
    let (hi, f2) = upper_sweep(c, c.len() as int, 0, f1);
    let high2 = match hi {
        Some(i) => c[i].edge.ticks(),
        None => high,
    };
    (low2, high2, f2)
}

/// Rounds for `allow` falsetickers and up, while `2 * allow < |c|`: the
/// first round with no more midpoints than allowed and a non-empty
/// interval gives the result; else the last round's edges.
pub open spec fn interval_search(c: Seq<CandidateTuple>, allow: nat, low: int, high: int) -> (
    int,
    int,
)
    decreases c.len() - allow,
{
    if 2 * allow >= c.len() {
        (low, high)
    } else {
        let (l2, h2, f) = sweep_round(c, low, high);
        if f <= allow && h2 > l2 {
            (l2, h2)
        } else {
            interval_search(c, allow + 1, l2, h2)
        }
    }
}

fn weight_of(e: EndpointType) -> (r: i128)
    ensures
        r as int == weight(e),
{
    match e {
        EndpointType::Upper => 1,
        EndpointType::Middle => 0,
        EndpointType::Lower => -1,
    }
}

/// The largest contiguous intersection of the correctness intervals in the
/// sorted chime list, tolerating as few falsetickers as needed. The result
/// is a valid interval only where high exceeds low.
pub fn find_interval(chime_list: &[CandidateTuple]) -> (r: (NtpDuration, NtpDuration))
    ensures
        (r.0.ticks(), r.1.ticks()) == interval_search(
            chime_list@,
            0,
            INTERVAL_SENTINEL as int,
            -INTERVAL_SENTINEL,
        ),
{
    let ghost c = chime_list@;
    let n = chime_list.len();
    let mut low = NtpDuration::from_bits(INTERVAL_SENTINEL);
    let mut high = NtpDuration::from_bits(-INTERVAL_SENTINEL);
    let mut allow: usize = 0;
    while allow < n - allow
        invariant
            n == c.len(),
            c == chime_list@,
            allow <= n,
            interval_search(c, 0, INTERVAL_SENTINEL as int, -INTERVAL_SENTINEL) == interval_search(
                c,
                allow as nat,
                low.ticks(),
                high.ticks(),
            ),
        decreases n - allow,
    {
        let ghost low0 = low.ticks();
        let ghost high0 = high.ticks();
        // Scan from lowest to highest for the lower endpoint.
        let mut found: i128 = 0;
        let mut chime: i128 = 0;
        let mut hit: usize = n;
        let mut i: usize = 0;
        while i < n
            invariant
                n == c.len(),
                c == chime_list@,
                i <= n,
                0 <= found <= i,
                -(i as int) <= chime <= i,
                hit < n ==> i == n,
                lower_sweep(c, 0, 0, 0) == if hit < n {
                    (Some(hit as int), found as int)
                } else {
                    lower_sweep(c, i as int, chime as int, found as int)
                },
            decreases n - i,
        {
            chime = chime - weight_of(chime_list[i].endpoint_type);
            if chime >= n as i128 - found {
                hit = i;
                i = n;
            } else {
                if let EndpointType::Middle = chime_list[i].endpoint_type {
                    found = found + 1;
                }
                i = i + 1;
            }
        }
        if hit < n {
            low = chime_list[hit].edge;
        }
        // Scan from highest to lowest for the upper endpoint.
        let ghost f1 = found as int;
        chime = 0;
        let mut hit2: usize = n;
        let mut k: usize = n;
        while k > 0
            invariant
                n == c.len(),
                c == chime_list@,
                k <= n,
                0 <= found <= f1 + (n - k),
                f1 <= n,
                -((n - k) as int) <= chime <= n - k,
                hit2 < n ==> k == 0,
                upper_sweep(c, n as int, 0, f1) == if hit2 < n {
                    (Some(hit2 as int), found as int)
                } else {
                    upper_sweep(c, k as int, chime as int, found as int)
                },
            decreases k,
        {
            chime = chime + weight_of(chime_list[k - 1].endpoint_type);
            if chime >= n as i128 - found {
                hit2 = k - 1;
                k = 0;
            } else {
                if let EndpointType::Middle = chime_list[k - 1].endpoint_type {
                    found = found + 1;
                }
                k = k - 1;
            }
        }
        if hit2 < n {
            high = chime_list[hit2].edge;
        }
        assert(sweep_round(c, low0, high0) == (low.ticks(), high.ticks(), found as int));
        // More midpoints than allowed falsetickers: the intersection holds a
        // truechimer without its midpoint, so allow one more and go again.
        if found <= allow as i128 && high.duration > low.duration {
            return (low, high);
        }
        allow = allow + 1;
    }
    (low, high)
}

/// The number of entries of type `e` in `c` from index `i` on.
pub open spec fn count_from(c: Seq<CandidateTuple>, i: int, e: EndpointType) -> int
    decreases c.len() - i,
{
    if i < 0 || i >= c.len() {
        0
    } else {
        (if c[i].endpoint_type == e {
            1int
        } else {
            0int
        }) + count_from(c, i + 1, e)
    }
}

proof fn lemma_count_from_monotone(c: Seq<CandidateTuple>, i: int, j: int, e: EndpointType)
    requires
        0 <= i <= j <= c.len(),
    ensures
        0 <= count_from(c, j, e) <= count_from(c, i, e),
    decreases j - i,
{
    if i < j {
        lemma_count_from_monotone(c, i + 1, j, e);
    } else {
        lemma_count_from_nonneg(c, j, e);
    }
}

proof fn lemma_count_from_nonneg(c: Seq<CandidateTuple>, i: int, e: EndpointType)
    requires
        0 <= i <= c.len(),
    ensures
        count_from(c, i, e) >= 0,
    decreases c.len() - i,
{
    if i < c.len() {
        lemma_count_from_nonneg(c, i + 1, e);
    }
}

proof fn lemma_count_from_total(c: Seq<CandidateTuple>, i: int)
    requires
        0 <= i <= c.len(),
    ensures
        count_from(c, i, EndpointType::Lower) + count_from(c, i, EndpointType::Middle)
            + count_from(c, i, EndpointType::Upper) == c.len() - i,
    decreases c.len() - i,
{
    if i < c.len() {
        lemma_count_from_total(c, i + 1);
    }
}

proof fn lemma_lower_sweep_open(c: Seq<CandidateTuple>, i: int, chime: int, found: int)
    requires
        0 <= i <= c.len(),
        count_from(c, 0, EndpointType::Upper) >= 1,
        chime == (count_from(c, 0, EndpointType::Lower) - count_from(c, i, EndpointType::Lower))
            - (count_from(c, 0, EndpointType::Upper) - count_from(c, i, EndpointType::Upper)),
        found == count_from(c, 0, EndpointType::Middle) - count_from(c, i, EndpointType::Middle),
    ensures
        lower_sweep(c, i, chime, found) == (None::<int>, count_from(c, 0, EndpointType::Middle)),
    decreases c.len() - i,
{
    if i < c.len() {
        lemma_count_from_total(c, 0);
        lemma_count_from_monotone(c, 0, i + 1, EndpointType::Lower);
        lemma_count_from_monotone(c, 0, i, EndpointType::Middle);
        lemma_count_from_monotone(c, 0, i + 1, EndpointType::Upper);
        lemma_count_from_monotone(c, i + 1, c.len() as int, EndpointType::Upper);
        let ch = chime - weight(c[i].endpoint_type);
        let f2 = if c[i].endpoint_type is Middle {
            found + 1
        } else {
            found
        };
        assert(ch < c.len() - found);
        lemma_lower_sweep_open(c, i + 1, ch, f2);
    } else {
        lemma_count_from_nonneg(c, i, EndpointType::Middle);
    }
}

proof fn lemma_upper_sweep_open(c: Seq<CandidateTuple>, k: int, chime: int, found: int, m0: int)
    requires
        0 <= k <= c.len(),
        0 <= m0 < c.len(),
        c[m0].endpoint_type == EndpointType::Middle,
        forall|u: int|
            0 <= u < c.len() && #[trigger] c[u].endpoint_type == EndpointType::Upper ==> m0 < u,
        count_from(c, 0, EndpointType::Middle) <= count_from(c, 0, EndpointType::Lower),
        chime == count_from(c, k, EndpointType::Upper) - count_from(c, k, EndpointType::Lower),
        found == count_from(c, 0, EndpointType::Middle) + count_from(c, k, EndpointType::Middle),
    ensures
        upper_sweep(c, k, chime, found).0 == None::<int>,
    decreases k,
{
    if k > 0 {
        let j = k - 1;
        lemma_count_from_total(c, 0);
        lemma_count_from_monotone(c, 0, j, EndpointType::Upper);
        lemma_count_from_monotone(c, 0, j, EndpointType::Lower);
        lemma_count_from_monotone(c, 0, j, EndpointType::Middle);
        lemma_count_from_nonneg(c, k, EndpointType::Lower);
        assert(count_from(c, j, EndpointType::Middle) == (if c[j].endpoint_type
            == EndpointType::Middle {
            1int
        } else {
            0int
        }) + count_from(c, k, EndpointType::Middle));
        assert(count_from(c, j, EndpointType::Lower) == (if c[j].endpoint_type
            == EndpointType::Lower {
            1int
        } else {
            0int
        }) + count_from(c, k, EndpointType::Lower));
        assert(count_from(c, j, EndpointType::Upper) == (if c[j].endpoint_type
            == EndpointType::Upper {
            1int
        } else {
            0int
        }) + count_from(c, k, EndpointType::Upper));
        if j >= m0 {
            lemma_count_from_monotone(c, m0 + 1, k, EndpointType::Middle);
            lemma_count_from_monotone(c, 0, m0, EndpointType::Middle);
        }
        let ch = chime + weight(c[j].endpoint_type);
        assert(ch < c.len() - found);
        let f2 = if c[j].endpoint_type is Middle {
            found + 1
        } else {
            found
        };
        lemma_upper_sweep_open(c, k - 1, ch, f2, m0);
    }
}

proof fn lemma_search_stays_open(c: Seq<CandidateTuple>, allow: nat, m0: int)
    requires
        count_from(c, 0, EndpointType::Upper) >= 1,
        0 <= m0 < c.len(),
        c[m0].endpoint_type == EndpointType::Middle,
        forall|u: int|
            0 <= u < c.len() && #[trigger] c[u].endpoint_type == EndpointType::Upper ==> m0 < u,
        count_from(c, 0, EndpointType::Middle) <= count_from(c, 0, EndpointType::Lower),
    ensures
        interval_search(c, allow, INTERVAL_SENTINEL as int, -INTERVAL_SENTINEL) == (
            INTERVAL_SENTINEL as int,
            -INTERVAL_SENTINEL,
        ),
    decreases c.len() - allow,
{
    if 2 * allow < c.len() {
        lemma_lower_sweep_open(c, 0, 0, 0);
        lemma_count_from_nonneg(c, c.len() as int, EndpointType::Upper);
        lemma_upper_sweep_open(c, c.len() as int, 0, count_from(c, 0, EndpointType::Middle), m0);
        lemma_search_stays_open(c, allow + 1, m0);
    }
}

/// On a chime list with an upper edge, no more midpoints than lower edges,
/// and a midpoint ahead of every upper edge (as in a list built from peers
/// whose edges are distinct), neither sweep ever reaches its threshold of
/// the list's length less the midpoints found: the search returns the empty
/// starting interval at every tolerance. So adding a peer to such a list
/// never changes the result, and in particular never shrinks it.
pub proof fn lemma_interval_stays_open(c: Seq<CandidateTuple>, m0: int)
    requires
        exists|u: int| 0 <= u < c.len() && c[u].endpoint_type == EndpointType::Upper,
        0 <= m0 < c.len(),
        c[m0].endpoint_type == EndpointType::Middle,
        forall|u: int|
            0 <= u < c.len() && #[trigger] c[u].endpoint_type == EndpointType::Upper ==> m0 < u,
        count_from(c, 0, EndpointType::Middle) <= count_from(c, 0, EndpointType::Lower),
    ensures
        interval_search(c, 0, INTERVAL_SENTINEL as int, -INTERVAL_SENTINEL) == (
            INTERVAL_SENTINEL as int,
            -INTERVAL_SENTINEL,
        ),
{
    let u = choose|u: int| 0 <= u < c.len() && c[u].endpoint_type == EndpointType::Upper;
    lemma_count_from_monotone(c, 0, u, EndpointType::Upper);
    lemma_count_from_nonneg(c, u + 1, EndpointType::Upper);
    lemma_search_stays_open(c, 0, m0);
}

pub open spec fn of_type(e: EndpointType) -> spec_fn(CandidateTuple) -> bool {
    |t: CandidateTuple| t.endpoint_type == e
}

/// The number of entries of type `e` in the multiset `m`.
pub open spec fn type_count(m: Multiset<CandidateTuple>, e: EndpointType) -> nat {
    m.filter(of_type(e)).len()
}

proof fn lemma_count_from_multiset(c: Seq<CandidateTuple>, i: int, e: EndpointType)
    requires
        0 <= i <= c.len(),
    ensures
        count_from(c, i, e) == type_count(c.subrange(i, c.len() as int).to_multiset(), e),
    decreases c.len() - i,
{
    broadcast use {
        group_multiset_axioms,
        vstd::seq_lib::lemma_multiset_commutative,
        vstd::seq_lib::to_multiset_len,
    };

    let n = c.len() as int;
    if i == n {
        assert(c.subrange(i, n) =~= Seq::<CandidateTuple>::empty());
        let m = c.subrange(i, n).to_multiset();
        assert forall|v: CandidateTuple| #[trigger] m.filter(of_type(e)).count(v) == 0 by {
            assert(m.count(v) <= m.len());
        }
        assert(m.filter(of_type(e)) =~= Multiset::empty());
    } else {
        lemma_count_from_multiset(c, i + 1, e);
        let x = c[i];
        let rest = c.subrange(i + 1, n);
        assert(c.subrange(i, n) =~= seq![x] + rest);
        assert(seq![x] =~= Seq::<CandidateTuple>::empty().push(x));
        vstd::seq_lib::to_multiset_build(Seq::<CandidateTuple>::empty(), x);
        assert(Seq::<CandidateTuple>::empty().to_multiset().len() == 0);
        assert(seq![x].to_multiset() =~= Multiset::singleton(x));
        let a = Multiset::singleton(x);
        let b = rest.to_multiset();
        assert(a.add(b).filter(of_type(e)) =~= a.filter(of_type(e)).add(b.filter(of_type(e))));
        if x.endpoint_type == e {
            assert(a.filter(of_type(e)) =~= a);
        } else {
            assert(a.filter(of_type(e)) =~= Multiset::empty());
        }
    }
}

proof fn lemma_candidates_index(peers: Seq<Peer>, k: nat, now: NtpTimestamp, idx: int)
    requires
        k <= peers.len(),
        0 <= idx < 3 * k,
    ensures
        candidates(peers, k, now).len() == 3 * k,
        candidates(peers, k, now)[idx] == edges_of(peers[idx / 3], idx / 3, now)[idx % 3],
    decreases k,
{
    lemma_candidates_len(peers, (k - 1) as nat, now);
    if idx < 3 * (k - 1) {
        lemma_candidates_index(peers, (k - 1) as nat, now, idx);
    }
}

proof fn lemma_candidates_len(peers: Seq<Peer>, k: nat, now: NtpTimestamp)
    requires
        k <= peers.len(),
    ensures
        candidates(peers, k, now).len() == 3 * k,
    decreases k,
{
    if k > 0 {
        lemma_candidates_len(peers, (k - 1) as nat, now);
    }
}

proof fn lemma_type_count_whole(c: Seq<CandidateTuple>, e: EndpointType)
    ensures
        count_from(c, 0, e) == type_count(c.to_multiset(), e),
{
    lemma_count_from_multiset(c, 0, e);
    assert(c.subrange(0, c.len() as int) =~= c);
}

proof fn lemma_candidates_count(peers: Seq<Peer>, k: nat, now: NtpTimestamp, e: EndpointType)
    requires
        k <= peers.len(),
    ensures
        type_count(candidates(peers, k, now).to_multiset(), e) == k,
    decreases k,
{
    broadcast use {group_multiset_axioms, vstd::seq_lib::lemma_multiset_commutative};

    if k == 0 {
        lemma_type_count_whole(Seq::<CandidateTuple>::empty(), e);
    } else {
        lemma_candidates_count(peers, (k - 1) as nat, now, e);
        let a = candidates(peers, (k - 1) as nat, now).to_multiset();
        let edges = edges_of(peers[k - 1], k - 1, now);
        let b = edges.to_multiset();
        assert(candidates(peers, k, now).to_multiset() == a.add(b));
        assert(a.add(b).filter(of_type(e)) =~= a.filter(of_type(e)).add(b.filter(of_type(e))));
        lemma_type_count_whole(edges, e);
        assert(count_from(edges, 0, e) == 1) by {
            reveal_with_fuel(count_from, 4);
        }
    }
}

proof fn lemma_first_of_type(c: Seq<CandidateTuple>, i: int, e: EndpointType) -> (j: int)
    requires
        0 <= i <= c.len(),
        count_from(c, i, e) > 0,
    ensures
        i <= j < c.len(),
        c[j].endpoint_type == e,
        forall|j2: int| i <= j2 < j ==> #[trigger] c[j2].endpoint_type != e,
    decreases c.len() - i,
{
    if i < c.len() && c[i].endpoint_type == e {
        i
    } else {
        lemma_first_of_type(c, i + 1, e)
    }
}

/// Where `r` holds the values of `s` (as a multiset), `r` holds `s[idx]`
/// at some index.
proof fn lemma_index_in_permutation(
    s: Seq<CandidateTuple>,
    r: Seq<CandidateTuple>,
    idx: int,
) -> (j: int)
    requires
        r.to_multiset() == s.to_multiset(),
        0 <= idx < s.len(),
    ensures
        0 <= j < r.len(),
        r[j] == s[idx],
{
    broadcast use {group_multiset_axioms, to_multiset_contains};

    assert(s.contains(s[idx]));
    to_multiset_contains(s, s[idx]);
    to_multiset_contains(r, s[idx]);
    assert(r.contains(s[idx]));
    choose|j: int| 0 <= j < r.len() && r[j] == s[idx]
}

/// A chime list built from peers with a positive root distance and an
/// offset below the largest duration meets the conditions of
/// `lemma_interval_stays_open`.
proof fn lemma_built_list_stays_open(peers: Seq<Peer>, now: NtpTimestamp, r: Seq<CandidateTuple>)
    requires
        peers.len() >= 1,
        forall|i: int|
            0 <= i < peers.len() ==> root_distance_of(#[trigger] peers[i], now) > 0
                && peers[i].statistics.offset.ticks() < i64::MAX,
        sorted_by_edge(r),
        r.to_multiset() == candidates(peers, peers.len(), now).to_multiset(),
    ensures
        interval_search(r, 0, INTERVAL_SENTINEL as int, -INTERVAL_SENTINEL) == (
            INTERVAL_SENTINEL as int,
            -INTERVAL_SENTINEL,
        ),
{
    let m = peers.len();
    let s = candidates(peers, m, now);
    lemma_candidates_len(peers, m, now);
    lemma_type_count_whole(r, EndpointType::Upper);
    lemma_type_count_whole(r, EndpointType::Middle);
    lemma_type_count_whole(r, EndpointType::Lower);
    lemma_candidates_count(peers, m, now, EndpointType::Upper);
    lemma_candidates_count(peers, m, now, EndpointType::Middle);
    lemma_candidates_count(peers, m, now, EndpointType::Lower);
    let u0 = lemma_first_of_type(r, 0, EndpointType::Upper);
    // the candidate that r[u0] is, and the midpoint of the same peer
    vstd::seq_lib::to_multiset_len(s);
    vstd::seq_lib::to_multiset_len(r);
    assert(exists|idx: int| 0 <= idx < s.len() && s[idx] == r[u0]) by {
        let j = lemma_index_in_permutation(r, s, u0);
    }
    let idx = choose|idx: int| 0 <= idx < s.len() && s[idx] == r[u0];
    let p = idx / 3;
    lemma_candidates_index(peers, m, now, idx);
    lemma_candidates_index(peers, m, now, 3 * p + 1);
    assert(idx % 3 == 0);
    let m0 = lemma_index_in_permutation(s, r, 3 * p + 1);
    assert(r[m0].edge.ticks() < r[u0].edge.ticks());
    assert(m0 < u0);
    assert forall|u: int|
        0 <= u < r.len() && #[trigger] r[u].endpoint_type == EndpointType::Upper implies m0 < u by {
        if u < u0 {
            assert(r[u].endpoint_type != EndpointType::Upper);
        }
    }
    lemma_interval_stays_open(r, m0);
}

/// Adding a peer to the chime list never shrinks the interval that the
/// search returns, where every peer has a positive root distance and an
/// offset below the largest duration: the result is the same before and
/// after, whichever peer is added.
pub proof fn lemma_adding_a_peer_keeps_the_interval(
    peers: Seq<Peer>,
    extra: Peer,
    now: NtpTimestamp,
    before: Seq<CandidateTuple>,
    after: Seq<CandidateTuple>,
)
    requires
        peers.len() >= 1,
        forall|i: int|
            0 <= i < peers.len() ==> root_distance_of(#[trigger] peers[i], now) > 0
                && peers[i].statistics.offset.ticks() < i64::MAX,
        root_distance_of(extra, now) > 0,
        extra.statistics.offset.ticks() < i64::MAX,
        sorted_by_edge(before),
        before.to_multiset() == candidates(peers, peers.len(), now).to_multiset(),
        sorted_by_edge(after),
        after.to_multiset() == candidates(peers.push(extra), peers.len() + 1, now).to_multiset(),
    ensures
        interval_search(after, 0, INTERVAL_SENTINEL as int, -INTERVAL_SENTINEL) == interval_search(
            before,
            0,
            INTERVAL_SENTINEL as int,
            -INTERVAL_SENTINEL,
        ),
{
    lemma_built_list_stays_open(peers, now, before);
    let more = peers.push(extra);
    assert forall|i: int|
        0 <= i < more.len() implies root_distance_of(#[trigger] more[i], now) > 0
            && more[i].statistics.offset.ticks() < i64::MAX by {
        if i < peers.len() {
            assert(more[i] == peers[i]);
        }
    }
    lemma_built_list_stays_open(more, now, after);
}

} // verus!
