//! Upstream selection and what to do with an upstream's answer.
use vstd::prelude::*;

verus! {

/// The two upstream payment processors.
#[derive(Debug, Clone, Copy, PartialEq, Eq, Structural)]
pub enum Processor {
    Default,
    Fallback,
}

/// The upstream tried on an attempt with `retry_count` earlier failures:
/// the default one on even counts, the fallback one on odd counts.
pub open spec fn processor_for(retry_count: u64) -> Processor {
    if retry_count % 2 == 0 {
        Processor::Default
    } else {
        Processor::Fallback
    }
}

/// Endpoint that payments are posted to on each upstream.
pub open spec fn processor_url(p: Processor) -> Seq<char> {
    match p {
        Processor::Default => "http://payment-processor-default:8080/payments"@,
        Processor::Fallback => "http://payment-processor-fallback:8080/payments"@,
    }
}

/// A 2xx status: the upstream accepted the payment.
pub open spec fn is_success(status: u16) -> bool {
    200 <= status < 300
}

/// A 5xx status or 429 Too Many Requests: the payment may be tried again.
pub open spec fn is_retryable(status: u16) -> bool {
    (500 <= status < 600) || status == 429
}

/// What becomes of a payment after one upstream attempt.
#[derive(Debug, Clone, Copy, PartialEq, Eq, Structural)]
pub enum Outcome {
    /// Accepted: record it in the store of this upstream.
    Record(Processor),
    /// Transient failure: enqueue it again with this retry count.
    Retry(u64),
    /// Terminal failure: drop it without recording.
    GiveUp,
}

impl Processor {
    /// Upstream for an attempt with `retry_count` earlier failures; the
    /// choice alternates so that a failing default crosses to the fallback.
    pub fn for_retry(retry_count: u64) -> (p: Processor)
        ensures
            p == processor_for(retry_count),
            p == Processor::Default <==> retry_count % 2 == 0,
    {
        if retry_count % 2 == 0 {
            Processor::Default
        } else {
            Processor::Fallback
        }
    }

    /// Endpoint to post a payment to on this upstream.
    pub fn url(&self) -> (u: &'static str)
        ensures
            u@ == processor_url(*self),
    {
        match self {
            Processor::Default => "http://payment-processor-default:8080/payments",
            Processor::Fallback => "http://payment-processor-fallback:8080/payments",
        }
    }
}

/// The outcome of an attempt with `retry_count` earlier failures that got
/// `status` back from the upstream, or `None` when no response came (a network
/// error, handled like a 5xx).
pub fn outcome(retry_count: u64, status: Option<u16>) -> (r: Outcome)
    requires
        retry_count < u64::MAX,
    ensures
        status is None ==> r == Outcome::Retry((retry_count + 1) as u64),
        status matches Some(s) && is_success(s) ==> r == Outcome::Record(
            processor_for(retry_count),
        ),
        status matches Some(s) && is_retryable(s) ==> r == Outcome::Retry(
            (retry_count + 1) as u64,
        ),
        status matches Some(s) && !is_success(s) && !is_retryable(s) ==> r == Outcome::GiveUp,
{
    match status {
        None => Outcome::Retry(retry_count + 1),
        Some(s) => {
            if 200 <= s && s < 300 {
                Outcome::Record(Processor::for_retry(retry_count))
            } else if (500 <= s && s < 600) || s == 429 {
                Outcome::Retry(retry_count + 1)
            } else {
                Outcome::GiveUp
            }
        },
    }
}

} // verus!
