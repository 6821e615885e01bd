//! What the article retriever decides: how a request is put, how a raw
//! body becomes bytes, when the pool is warmed, and whether a failed
//! attempt is repeated.
use crate::nntp::error::NntpError;
use crate::nntp::yenc::decode_buffer;
use crate::nntp::yenc::extract_yenc_data;
use crate::nntp::yenc::yenc_decode;
use crate::nntp::yenc::yenc_payload;
use vstd::prelude::*;
use vstd::string::StringExecFns;

verus! {

/// Milliseconds between the openings of two connections when the pool is
/// warmed.
pub const WARM_STAGGER_MS: u64 = 50;

/// Milliseconds after which a download is given up.
pub const MAX_ELAPSED_MS: u64 = 30000;

/// The message id as the `BODY` command takes it: between angle brackets.
pub fn body_argument(message_id: &str) -> (s: String)
    ensures
        s@ == "<"@ + message_id@ + ">"@,
{
    let mut s = "<".to_owned();
    s.append(message_id);
    s.append(">");
    s
}

/// The bytes that a raw article body stands for: its yEnc payload,
/// decoded.
pub fn decode_article(raw: &[u8]) -> (data: Vec<u8>)
    ensures
        data@ == yenc_decode(yenc_payload(raw@)),
{
    let payload = extract_yenc_data(raw);
    decode_buffer(payload.as_slice())
}

/// Milliseconds after which connection `index` is opened when the pool is
/// warmed: the connections are opened 50 ms apart.
pub fn warm_delay_ms(index: usize) -> (ms: u64)
    ensures
        ms == if index * WARM_STAGGER_MS <= u64::MAX {
            index * WARM_STAGGER_MS
        } else {
            u64::MAX as int
        },
{
    let step: u128 = WARM_STAGGER_MS as u128;
    let at: u128 = (index as u128) * step;
    if at <= u64::MAX as u128 {
        at as u64
    } else {
        u64::MAX
    }
}

/// The delays after which the connections of a pool of `max_connections`
/// are opened when it is warmed: all of them, 50 ms apart.
pub fn warm_plan(max_connections: usize) -> (delays: Vec<u64>)
    ensures
        delays@.len() == max_connections,
        forall|i: int|
            0 <= i < max_connections ==> delays@[i] == if i * WARM_STAGGER_MS <= u64::MAX {
                i * WARM_STAGGER_MS
            } else {
                u64::MAX as int
            },
{
    let mut delays: Vec<u64> = Vec::new();
    let mut i: usize = 0;
    while i < max_connections
        invariant
            i <= max_connections,
            delays@.len() == i,
            forall|k: int|
                0 <= k < i ==> delays@[k] == if k * WARM_STAGGER_MS <= u64::MAX {
                    k * WARM_STAGGER_MS
                } else {
                    u64::MAX as int
                },
        decreases max_connections - i,
    {
        delays.push(warm_delay_ms(i));
        i += 1;
    }
    delays
}

/// What follows an attempt to download a segment.
#[derive(Debug, Clone, Copy, PartialEq, Eq, Structural)]
pub enum RetryStep {
    /// The attempt succeeded: hand out the bytes.
    Done,
    /// Wait this many milliseconds and try again.
    RetryAfter(u64),
    /// Hand out the error of the last attempt.
    GiveUp,
}

/// What follows an attempt that ended with `failure` (nothing for
/// success), `elapsed_ms` after the first attempt began, when the next
/// attempt would begin `delay_ms` later.
///
/// An attempt is repeated when its failure may pass and the next attempt
/// begins no later than 30 s after the first.
pub open spec fn retry_decision(failure: Option<NntpError>, elapsed_ms: u64, delay_ms: u64) -> RetryStep {
    match failure {
        None => RetryStep::Done,
        Some(e) => if e.transient() && elapsed_ms + delay_ms <= MAX_ELAPSED_MS {
            RetryStep::RetryAfter(delay_ms)
        } else {
            RetryStep::GiveUp
        },
    }
}

/// Decides what follows an attempt to download a segment.
pub fn retry_step(failure: Option<&NntpError>, elapsed_ms: u64, delay_ms: u64) -> (step: RetryStep)
    ensures
        step == retry_decision(
            match failure {
                Some(e) => Some(*e),
                None => None,
            },
            elapsed_ms,
            delay_ms,
        ),
{
    match failure {
        None => RetryStep::Done,
        Some(e) => {
            if e.is_transient() && elapsed_ms <= MAX_ELAPSED_MS && delay_ms <= MAX_ELAPSED_MS
                - elapsed_ms {
                RetryStep::RetryAfter(delay_ms)
            } else {
                RetryStep::GiveUp
            }
        },
    }
}

/// No attempt begins later than 30 s after the first.
pub proof fn lemma_retry_window(failure: Option<NntpError>, elapsed_ms: u64, delay_ms: u64)
    ensures
        retry_decision(failure, elapsed_ms, delay_ms) matches RetryStep::RetryAfter(d) ==> d
            == delay_ms && elapsed_ms + d <= MAX_ELAPSED_MS,
        failure is None <==> retry_decision(failure, elapsed_ms, delay_ms) == RetryStep::Done,
{
}

} // verus!
