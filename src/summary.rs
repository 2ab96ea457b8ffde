//! Processor summaries and their federation with the peer instance.
use vstd::prelude::*;
use vstd::string::{StrSliceExecFns, StringExecFns};

verus! {

/// Totals of one upstream's store over a window, the amount in cents.
#[derive(Debug, Clone, Copy, PartialEq, Eq, Structural)]
pub struct Summary {
    pub total_requests: u64,
    pub total_cents: u64,
}

/// Totals for both upstreams.
#[derive(Debug, Clone, Copy, PartialEq, Eq, Structural)]
pub struct ProcessorSummaries {
    pub default_sum: Summary,
    pub fallback: Summary,
}

impl Summary {
    /// Field-wise sum of two summaries, or `None` when a field would leave `u64`.
    pub fn merge(&self, other: &Summary) -> (r: Option<Summary>)
        ensures
            r is Some <==> (self.total_requests + other.total_requests <= u64::MAX
                && self.total_cents + other.total_cents <= u64::MAX),
            r matches Some(m) ==> m.total_requests == self.total_requests + other.total_requests
                && m.total_cents == self.total_cents + other.total_cents,
    {
        match (
            self.total_requests.checked_add(other.total_requests),
            self.total_cents.checked_add(other.total_cents),
        ) {
            (Some(total_requests), Some(total_cents)) => Some(Summary { total_requests, total_cents }),
            _ => None,
        }
    }
}

impl ProcessorSummaries {
    /// Field-wise sum of the local summaries and the peer's, or `None` when a
    /// field would leave `u64`.
    pub fn merge(&self, other: &ProcessorSummaries) -> (r: Option<ProcessorSummaries>)
        ensures
            r is Some <==> (self.default_sum.total_requests + other.default_sum.total_requests
                <= u64::MAX && self.default_sum.total_cents + other.default_sum.total_cents
                <= u64::MAX && self.fallback.total_requests + other.fallback.total_requests
                <= u64::MAX && self.fallback.total_cents + other.fallback.total_cents
                <= u64::MAX),
            r matches Some(m) ==> {
                &&& m.default_sum.total_requests == self.default_sum.total_requests
                    + other.default_sum.total_requests
                &&& m.default_sum.total_cents == self.default_sum.total_cents
                    + other.default_sum.total_cents
                &&& m.fallback.total_requests == self.fallback.total_requests
                    + other.fallback.total_requests
                &&& m.fallback.total_cents == self.fallback.total_cents
                    + other.fallback.total_cents
            },
    {
        match (self.default_sum.merge(&other.default_sum), self.fallback.merge(&other.fallback)) {
            (Some(default_sum), Some(fallback)) => Some(ProcessorSummaries { default_sum, fallback }),
            _ => None,
        }
    }
}

/// Whether a summary query also asks the peer: unless it is marked local-only.
pub fn wants_peer(only_local: Option<bool>) -> (r: bool)
    ensures
        r == (only_local != Some(true)),
{
    match only_local {
        Some(true) => false,
        _ => true,
    }
}

/// `s` without the slashes at its end.
pub open spec fn trim_trailing_slashes(s: Seq<char>) -> Seq<char>
    decreases s.len(),
{
    if s.len() > 0 && s.last() == '/' {
        trim_trailing_slashes(s.drop_last())
    } else {
        s
    }
}

/// Path of the summary endpoint on a server.
pub open spec fn summary_path() -> Seq<char> {
    "/payments-summary"@
}

/// The peer's summary endpoint: its base URL, less trailing slashes,
/// followed by the summary path.
pub fn peer_summary_url(peer_url: &str) -> (r: String)
    ensures
        r@ == trim_trailing_slashes(peer_url@) + summary_path(),
{
    let mut n = peer_url.unicode_len();
    assert(peer_url@.subrange(0, n as int) =~= peer_url@);
    while n > 0 && peer_url.get_char(n - 1) == '/'
        invariant
            n <= peer_url@.len(),
            trim_trailing_slashes(peer_url@) == trim_trailing_slashes(
                peer_url@.subrange(0, n as int),
            ),
        decreases n,
    {
        assert(peer_url@.subrange(0, n as int).drop_last() =~= peer_url@.subrange(0, n - 1));
        n = n - 1;
    }
    assert(peer_url@.subrange(0, n as int) == trim_trailing_slashes(peer_url@.subrange(0, n as int)));
    let base = peer_url.substring_char(0, n);
    let r = String::from_str(base);
    r.concat("/payments-summary")
}

} // verus!
