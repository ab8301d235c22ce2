//! Measurement destinations: the upload batch and its retry policy.
//!
//! The HTTP destination buffers incoming packets and, on each queue tick,
//! sends the whole buffer as one POST, retrying a failed send until the
//! configured attempts are spent; the buffer is cleared once the batch is
//! handed out, so a batch is uploaded (or lost) exactly once. Performing
//! the POST and writing files or stdout are the caller's side; the
//! batching and the retry decisions are here.

use vstd::prelude::*;
use crate::config::{HttpConfig, MeasurementDestination};
use crate::error::AppError;
use crate::packet::BeaconPacket;

verus! {

/// The retry state of one upload: how many attempts the batch may use in
/// all, how many have been made, and whether one has succeeded.
pub struct RetryLoop {
    pub total_attempts: u64,
    pub attempts_made: u64,
    pub succeeded: bool,
}

impl RetryLoop {
    /// A fresh retry loop: a failed send is retried until
    /// `retry_attempts + 1` attempts in all have been made.
    pub fn new(retry_attempts: u64) -> (r: RetryLoop)
        requires
            retry_attempts < u64::MAX,
        ensures
            r.total_attempts == retry_attempts + 1,
            r.attempts_made == 0,
            !r.succeeded,
    {
        RetryLoop { total_attempts: retry_attempts + 1, attempts_made: 0, succeeded: false }
    }

    /// Whether the batch should be POSTed (again): attempts remain and
    /// none has succeeded yet.
    pub open spec fn spec_should_post(&self) -> bool {
        self.attempts_made < self.total_attempts && !self.succeeded
    }

    /// Whether the batch should be POSTed (again).
    pub fn should_post(&self) -> (r: bool)
        ensures
            r == self.spec_should_post(),
    {
        self.attempts_made < self.total_attempts && !self.succeeded
    }

    /// Record the outcome of one POST.
    pub fn record(&mut self, ok: bool)
        requires
            old(self).spec_should_post(),
        ensures
            final(self).total_attempts == old(self).total_attempts,
            final(self).attempts_made == old(self).attempts_made + 1,
            final(self).succeeded == ok,
    {
        self.attempts_made = self.attempts_made + 1;
        self.succeeded = ok;
    }
}

/// How many POSTs a retry loop makes when every one of them fails: run
/// the loop to completion, recording a failure each time.
pub open spec fn posts_when_all_fail(l: RetryLoop) -> nat
    decreases l.total_attempts - l.attempts_made when l.attempts_made <= l.total_attempts
{
    if !l.spec_should_post() {
        0
    } else {
        1 + posts_when_all_fail(
            RetryLoop {
                total_attempts: l.total_attempts,
                attempts_made: (l.attempts_made + 1) as u64,
                succeeded: false,
            },
        )
    }
}

/// A server that fails every request receives exactly
/// `retry_attempts + 1` POSTs of the batch: the fresh retry loop, driven
/// with a failure result each round, posts once per allowed attempt.
pub proof fn lemma_retry_exhausts_attempts(retry_attempts: u64)
    requires
        retry_attempts < u64::MAX,
    ensures
        posts_when_all_fail(
            RetryLoop {
                total_attempts: (retry_attempts + 1) as u64,
                attempts_made: 0,
                succeeded: false,
            },
        ) == retry_attempts + 1,
{
    lemma_posts_remaining(
        RetryLoop {
            total_attempts: (retry_attempts + 1) as u64,
            attempts_made: 0,
            succeeded: false,
        },
    );
}

/// While no attempt has succeeded, the failing loop posts once per
/// remaining attempt.
pub proof fn lemma_posts_remaining(l: RetryLoop)
    requires
        !l.succeeded,
        l.attempts_made <= l.total_attempts,
    ensures
        posts_when_all_fail(l) == l.total_attempts - l.attempts_made,
    decreases l.total_attempts - l.attempts_made,
{
    if l.spec_should_post() {
        lemma_posts_remaining(
            RetryLoop {
                total_attempts: l.total_attempts,
                attempts_made: (l.attempts_made + 1) as u64,
                succeeded: false,
            },
        );
    }
}

/// The batching half of an HTTP upload destination: the endpoint, the
/// retry budget, and the packets waiting for the next queue tick.
pub struct HttpSender {
    pub endpoint: String,
    pub retry_attempts: u64,
    pub measurement_buffer: Vec<BeaconPacket>,
}

impl HttpSender {
    /// A sender with an empty buffer.
    pub fn new(endpoint: String, retry_attempts: u64) -> (r: HttpSender)
        ensures
            r.endpoint@ == endpoint@,
            r.retry_attempts == retry_attempts,
            r.measurement_buffer@ =~= Seq::<BeaconPacket>::empty(),
    {
        HttpSender { endpoint, retry_attempts, measurement_buffer: Vec::new() }
    }

    /// Queue one packet for the next batch.
    pub fn buffer_measurement(&mut self, m: BeaconPacket)
        ensures
            final(self).measurement_buffer@ == old(self).measurement_buffer@.push(m),
            final(self).endpoint@ == old(self).endpoint@,
            final(self).retry_attempts == old(self).retry_attempts,
    {
        self.measurement_buffer.push(m);
    }

    /// On a queue tick: hand out the whole batch together with its retry
    /// loop, clearing the buffer, or nothing when there is nothing to
    /// send. The batch leaves the buffer exactly once, whatever becomes
    /// of the POSTs.
    pub fn begin_send(&mut self) -> (r: Option<(Vec<BeaconPacket>, RetryLoop)>)
        requires
            old(self).retry_attempts < u64::MAX,
        ensures
            final(self).endpoint@ == old(self).endpoint@,
            final(self).retry_attempts == old(self).retry_attempts,
            final(self).measurement_buffer@ =~= Seq::<BeaconPacket>::empty(),
            (match r {
                Some((batch, retry)) => {
                    &&& batch@ == old(self).measurement_buffer@
                    &&& batch@.len() > 0
                    &&& retry.total_attempts == old(self).retry_attempts + 1
                    &&& retry.attempts_made == 0
                    &&& !retry.succeeded
                },
                None => old(self).measurement_buffer@.len() == 0,
            }),
    {
        if self.measurement_buffer.len() == 0 {
            return None;
        }
        let mut batch: Vec<BeaconPacket> = Vec::new();
        std::mem::swap(&mut batch, &mut self.measurement_buffer);
        Some((batch, RetryLoop::new(self.retry_attempts)))
    }
}

/// A destination the gateway can feed: the HTTP batcher with its tick
/// rate, a JSON-lines file, or stdout. The reserved websocket variant of
/// the configuration is not constructible here.
pub enum DestinationKind {
    Http { sender: HttpSender, queue_rate_ms: u64, config: HttpConfig },
    File { path: String, append: bool },
    Stdout,
}

/// Turn a destination configuration into a destination: an HTTP
/// destination gets an empty batch buffer and keeps its retry budget and
/// tick rate, and is refused when a client certificate is configured
/// without its password; file and stdout destinations carry their
/// settings through.
pub fn new_destination(config: MeasurementDestination) -> (r: Result<DestinationKind, AppError>)
    requires
        !(config is WebSocket),
    ensures
        (match config {
            MeasurementDestination::Http { config: http, retry_attempts, queue_rate_ms } => {
                if http.identity_cert is Some && http.identity_cert_pass is None {
                    r is Err
                } else {
                    match r {
                        Ok(DestinationKind::Http { sender, queue_rate_ms: q, config: c }) => {
                            &&& sender.endpoint@ == http.endpoint@
                            &&& sender.retry_attempts == retry_attempts
                            &&& sender.measurement_buffer@.len() == 0
                            &&& q == queue_rate_ms
                            &&& c == http
                        },
                        _ => false,
                    }
                }
            },
            MeasurementDestination::File { path, append } => (match r {
                Ok(DestinationKind::File { path: rp, append: ra }) => rp@ == path@ && ra == append,
                _ => false,
            }),
            MeasurementDestination::Stdout => r matches Ok(DestinationKind::Stdout),
            MeasurementDestination::WebSocket { .. } => true,
        }),
{
    match config {
        MeasurementDestination::Http { config: http, retry_attempts, queue_rate_ms } => {
            if http.identity_cert.is_some() && http.identity_cert_pass.is_none() {
                return Err(AppError::Other("Password for certificate not provided".to_owned()));
            }
            let sender = HttpSender::new(http.endpoint.clone(), retry_attempts);
            Ok(DestinationKind::Http { sender, queue_rate_ms, config: http })
        },
        MeasurementDestination::File { path, append } => Ok(
            DestinationKind::File { path, append },
        ),
        MeasurementDestination::Stdout => Ok(DestinationKind::Stdout),
        MeasurementDestination::WebSocket { .. } => Err(
            AppError::Other("websocket destinations are reserved".to_owned()),
        ),
    }
}

} // verus!
