//! Duration and goodput of single requests and of a whole batch.

use crate::client::{request_views, PartialRequest, PartialRequestView};
use vstd::prelude::*;

verus! {

/// How many nanoseconds make a second.
pub const NANOS_PER_SEC: u64 = 1_000_000_000;

/// Whether every request has seen both its headers and the end of its body.
pub open spec fn all_timed(reqs: Seq<PartialRequestView>) -> bool {
    forall|i: int|
        0 <= i < reqs.len() ==> (#[trigger] reqs[i]).received_header_instant is Some
            && reqs[i].received_body_instant is Some
}

/// The earliest instant at which the headers of any of `reqs` arrived; the
/// largest instant there is for no requests.
pub open spec fn earliest_headers(reqs: Seq<PartialRequestView>) -> u64
    decreases reqs.len(),
{
    if reqs.len() == 0 {
        u64::MAX
    } else {
        let before = earliest_headers(reqs.drop_last());
        let at = reqs.last().received_header_instant->0;
        if at < before {
            at
        } else {
            before
        }
    }
}

/// The latest instant at which the body of any of `reqs` was complete; zero
/// for no requests.
pub open spec fn latest_body(reqs: Seq<PartialRequestView>) -> u64
    decreases reqs.len(),
{
    if reqs.len() == 0 {
        0
    } else {
        let before = latest_body(reqs.drop_last());
        let at = reqs.last().received_body_instant->0;
        if at > before {
            at
        } else {
            before
        }
    }
}

/// How many body bytes `reqs` have received, all together.
pub open spec fn total_bytes(reqs: Seq<PartialRequestView>) -> nat
    decreases reqs.len(),
{
    if reqs.len() == 0 {
        0
    } else {
        total_bytes(reqs.drop_last()) + reqs.last().received_body_bytes
    }
}

/// The bits per second, rounded down, that `bytes` bytes in `nanos`
/// nanoseconds come to. Undefined for no time at all.
pub open spec fn goodput(bytes: nat, nanos: nat) -> Option<nat> {
    if nanos > 0 {
        Some(bytes * 8 * NANOS_PER_SEC as nat / nanos)
    } else {
        None
    }
}

/// The bits per second, rounded down, that `bytes` bytes in `nanos`
/// nanoseconds come to. `None` where the time is zero, and where the bits
/// times the nanoseconds of a second pass 128 bits.
pub fn goodput_bps(bytes: u128, nanos: u64) -> (r: Option<u128>)
    ensures
        r == if bytes * 8 * NANOS_PER_SEC <= u128::MAX {
            match goodput(bytes as nat, nanos as nat) {
                Some(g) => Some(g as u128),
                None => None,
            }
        } else {
            None
        },
{
    if nanos == 0 {
        return None;
    }
    match bytes.checked_mul(8 * (NANOS_PER_SEC as u128)) {
        Some(scaled) => {
            assert(scaled == bytes * 8 * NANOS_PER_SEC) by (nonlinear_arith)
                requires
                    scaled == bytes * (8 * (NANOS_PER_SEC as u128)),
            ;
            Some(scaled / (nanos as u128))
        },
        None => {
            assert(bytes * 8 * NANOS_PER_SEC > u128::MAX) by (nonlinear_arith)
                requires
                    bytes * (8 * (NANOS_PER_SEC as u128)) > u128::MAX,
            ;
            None
        },
    }
}

/// The totals of a batch of requests.
#[derive(Debug, Clone, Copy, PartialEq, Eq, Structural)]
pub struct Totals {
    /// How many requests the batch holds.
    pub requests: usize,
    /// How many body bytes they received, all together.
    pub bytes: u128,
    /// When the first headers arrived.
    pub earliest: u64,
    /// When the last body was complete.
    pub latest: u64,
}

impl Totals {
    /// The time from the first headers to the last body, where any passed.
    pub open spec fn duration(self) -> Option<nat> {
        if self.latest > self.earliest {
            Some((self.latest - self.earliest) as nat)
        } else {
            None
        }
    }

    /// The nanoseconds from the first headers to the last body. `None`
    /// where none passed, or the last body came before the first headers:
    /// the batch then has no duration, and no goodput.
    pub fn duration_nanos(&self) -> (d: Option<u64>)
        ensures
            match d {
                Some(nanos) => self.duration() == Some(nanos as nat),
                None => self.duration() is None,
            },
    {
        if self.latest > self.earliest {
            Some(self.latest - self.earliest)
        } else {
            None
        }
    }

    /// The goodput of the whole batch in bits per second, rounded down: all
    /// its bytes over the time from the first headers to the last body, so
    /// that requests that overlap count once. `None` where the batch has no
    /// duration.
    pub fn goodput_bps(&self) -> (r: Option<u128>)
        ensures
            r == match self.duration() {
                Some(nanos) if self.bytes * 8 * NANOS_PER_SEC <= u128::MAX => Some(
                    (self.bytes * 8 * NANOS_PER_SEC / nanos as int) as u128,
                ),
                _ => None,
            },
    {
        match self.duration_nanos() {
            Some(nanos) => goodput_bps(self.bytes, nanos),
            None => None,
        }
    }
}

impl PartialRequest {
    /// The nanoseconds from the headers of the response to the end of its
    /// body. `None` while either is missing, and where no time passed
    /// between them.
    pub fn duration_nanos(&self) -> (d: Option<u64>)
        ensures
            d == match (self.received_header_instant, self.received_body_instant) {
                (Some(from), Some(to)) if to > from => Some((to - from) as u64),
                _ => None,
            },
    {
        match (self.received_header_instant, self.received_body_instant) {
            (Some(from), Some(to)) => if to > from {
                Some(to - from)
            } else {
                None
            },
            _ => None,
        }
    }

    /// The goodput of the request in bits per second, rounded down: its
    /// body bytes over the time from its headers to the end of its body.
    pub fn goodput_bps(&self) -> (r: Option<u128>)
        ensures
            r == match (self.received_header_instant, self.received_body_instant) {
                (Some(from), Some(to)) if to > from => Some(
                    (self.received_body_bytes * 8 * NANOS_PER_SEC / (to - from)) as u128,
                ),
                _ => None,
            },
    {
        match self.duration_nanos() {
            Some(nanos) => {
                assert(self.received_body_bytes * 8 * NANOS_PER_SEC <= u128::MAX) by (nonlinear_arith)
                    requires
                        self.received_body_bytes <= u64::MAX,
                        NANOS_PER_SEC == 1_000_000_000,
                ;
                goodput_bps(self.received_body_bytes as u128, nanos)
            },
            None => None,
        }
    }
}

/// The totals of a batch of so many requests at most as `usize` counts:
/// how many requests, how many bytes, and from when to when.
pub open spec fn totals_of(reqs: Seq<PartialRequestView>) -> Totals {
    Totals {
        requests: reqs.len() as usize,
        bytes: total_bytes(reqs) as u128,
        earliest: earliest_headers(reqs),
        latest: latest_body(reqs),
    }
}

/// The totals of a batch: how many requests, how many bytes, and from when
/// to when. `None` where a request has not seen its headers or the end of
/// its body.
pub fn total_results(reqs: &[PartialRequest]) -> (r: Option<Totals>)
    ensures
        match r {
            Some(t) => {
                &&& all_timed(request_views(reqs@))
                &&& t.requests == reqs@.len()
                &&& t.bytes == total_bytes(request_views(reqs@))
                &&& t.earliest == earliest_headers(request_views(reqs@))
                &&& t.latest == latest_body(request_views(reqs@))
                &&& t == totals_of(request_views(reqs@))
            },
            None => !all_timed(request_views(reqs@)),
        },
{
    let ghost views = request_views(reqs@);
    let mut min_received_header_instant: u64 = u64::MAX;
    let mut max_received_body_instant: u64 = 0;
    let mut sum_received_body_bytes: u128 = 0;
    let mut i: usize = 0;
    while i < reqs.len()
        invariant
            i <= reqs.len(),
            views == request_views(reqs@),
            all_timed(views.take(i as int)),
            min_received_header_instant == earliest_headers(views.take(i as int)),
            max_received_body_instant == latest_body(views.take(i as int)),
            sum_received_body_bytes == total_bytes(views.take(i as int)),
            sum_received_body_bytes <= i * u64::MAX,
        decreases reqs.len() - i,
    {
        let req = &reqs[i];
        proof {
            assert(views[i as int] == req@);
            assert(views.take(i + 1).drop_last() =~= views.take(i as int));
            assert(views.take(i + 1).last() == views[i as int]);
        }
        let (header, body) = match (req.received_header_instant, req.received_body_instant) {
            (Some(header), Some(body)) => (header, body),
            _ => {
                return None;
            },
        };
        if header < min_received_header_instant {
            min_received_header_instant = header;
        }
        if body > max_received_body_instant {
            max_received_body_instant = body;
        }
        sum_received_body_bytes = sum_received_body_bytes + req.received_body_bytes as u128;
        i += 1;
        proof {
            let longer = views.take(i as int);
            assert forall|k: int| 0 <= k < longer.len() implies (#[trigger] longer[k]).received_header_instant is Some
                && longer[k].received_body_instant is Some by {
                if k < i - 1 {
                    assert(views.take(i - 1)[k] == longer[k]);
                }
            }
        }
    }
    assert(views.take(i as int) =~= views);
    Some(
        Totals {
            requests: reqs.len(),
            bytes: sum_received_body_bytes,
            earliest: min_received_header_instant,
            latest: max_received_body_instant,
        },
    )
}

/// The totals span the batch: no headers arrived before the earliest
/// instant and no body was complete after the latest, and in a batch that is
/// not empty some headers arrived at the one and some body was complete at
/// the other. No request has more bytes than the batch.
pub proof fn lemma_totals_span(reqs: Seq<PartialRequestView>)
    requires
        all_timed(reqs),
    ensures
        forall|i: int|
            0 <= i < reqs.len() ==> earliest_headers(reqs) <= (#[trigger] reqs[i]).received_header_instant->0
                && reqs[i].received_body_instant->0 <= latest_body(reqs)
                && reqs[i].received_body_bytes <= total_bytes(reqs),
        reqs.len() > 0 ==> exists|i: int|
            0 <= i < reqs.len() && (#[trigger] reqs[i]).received_header_instant->0
                == earliest_headers(reqs),
        reqs.len() > 0 ==> exists|i: int|
            0 <= i < reqs.len() && (#[trigger] reqs[i]).received_body_instant->0 == latest_body(
                reqs,
            ),
    decreases reqs.len(),
{
    if reqs.len() > 0 {
        let front = reqs.drop_last();
        let n = reqs.len() - 1;
        assert forall|i: int| 0 <= i < front.len() implies (#[trigger] front[i]).received_header_instant is Some
            && front[i].received_body_instant is Some by {
            assert(front[i] == reqs[i]);
        }
        lemma_totals_span(front);
        assert forall|i: int| 0 <= i < reqs.len() implies earliest_headers(reqs) <= (#[trigger] reqs[i]).received_header_instant->0
            && reqs[i].received_body_instant->0 <= latest_body(reqs) && reqs[i].received_body_bytes
            <= total_bytes(reqs) by {
            if i < n {
                assert(front[i] == reqs[i]);
            }
        }
        if earliest_headers(reqs) == reqs[n].received_header_instant->0 {
        } else {
            let i = choose|i: int|
                0 <= i < front.len() && (#[trigger] front[i]).received_header_instant->0
                    == earliest_headers(front);
            assert(reqs[i] == front[i]);
        }
        if latest_body(reqs) == reqs[n].received_body_instant->0 {
        } else {
            let i = choose|i: int|
                0 <= i < front.len() && (#[trigger] front[i]).received_body_instant->0
                    == latest_body(front);
            assert(reqs[i] == front[i]);
        }
    }
}

} // verus!
