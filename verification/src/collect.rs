//! The decisions of a bounded live-update collection: when to connect, poll,
//! back off, or stop, which updates to keep, and what the batch returns.
//!
//! The caller performs each action (connecting, polling a stream with a short
//! timeout, sleeping) and reports what happened as an event.

use vstd::prelude::*;
use crate::live::{backoff_spec, exponential_backoff, LiveStreamError, StreamErrorView};
use crate::text::owned;

verus! {

/// Where a collection stands.
#[derive(Debug, Clone, Copy, PartialEq, Eq)]
pub enum CollectPhase {
    /// At the head of an attempt, before a stream is polled or opened.
    Waiting,
    /// A connection is being opened.
    Connecting,
    /// A stream is being polled.
    Polling,
    /// The batch is complete.
    Done,
}

/// The state of one collection batch.
pub struct CollectState {
    /// Maximum number of updates to return.
    pub max_events: usize,
    /// Whether updates for candles that have not closed are kept.
    pub include_partial: bool,
    /// Maximum number of consecutive failed attempts.
    pub reconnect_attempts: usize,
    /// The first reconnect delay, in nanoseconds.
    pub initial_backoff_nanos: u64,
    /// Number of updates kept so far.
    pub collected: usize,
    /// Consecutive failed attempts since the last update.
    pub attempt: usize,
    /// The most recent connection or stream error.
    pub last_error: Option<LiveStreamError>,
    /// Where the batch stands.
    pub phase: CollectPhase,
}

/// What the caller observed after performing the last action.
pub enum CollectEvent {
    /// At the head of an attempt: whether collection was canceled, whether
    /// the deadline has passed, and whether a stream is already held.
    Ready { canceled: bool, expired: bool, holding: bool },
    /// A connection was opened.
    Connected { canceled: bool, expired: bool },
    /// Connecting was given up (canceled or out of time).
    ConnectAbandoned,
    /// Connecting failed.
    ConnectFailed { error: LiveStreamError },
    /// A poll ended without an update.
    TimedOut { canceled: bool, expired: bool },
    /// The stream produced an update.
    Received { is_final: bool, canceled: bool, expired: bool },
    /// The provider closed the stream.
    Closed { canceled: bool, expired: bool },
    /// The stream failed.
    Failed { error: LiveStreamError, canceled: bool, expired: bool },
}

/// What the caller does next.
#[derive(Debug, Clone, Copy, PartialEq, Eq)]
pub enum CollectAction {
    /// Open a new connection.
    Connect,
    /// Poll the held stream.
    Poll,
    /// Drop the held stream, if any, and wait this many nanoseconds (or until
    /// canceled, or until the deadline) before the next attempt.
    Backoff { nanos: u64 },
    /// Stop; keep the held stream for the next batch only if `keep_stream`.
    Finish { keep_stream: bool },
}

/// The outcome of one event: whether the update just received is kept, and
/// what to do next.
#[derive(Debug, Clone, Copy, PartialEq, Eq)]
pub struct CollectStep {
    pub accept: bool,
    pub action: CollectAction,
}

/// A batch's state with its last error viewed as characters.
pub struct CollectModel {
    pub max_events: usize,
    pub include_partial: bool,
    pub reconnect_attempts: usize,
    pub initial_backoff_nanos: u64,
    pub collected: usize,
    pub attempt: usize,
    pub last_error: Option<StreamErrorView>,
    pub phase: CollectPhase,
}

impl View for CollectState {
    type V = CollectModel;

    open spec fn view(&self) -> CollectModel {
        CollectModel {
            max_events: self.max_events,
            include_partial: self.include_partial,
            reconnect_attempts: self.reconnect_attempts,
            initial_backoff_nanos: self.initial_backoff_nanos,
            collected: self.collected,
            attempt: self.attempt,
            last_error: match self.last_error {
                Some(e) => Some(e@),
                None => None,
            },
            phase: self.phase,
        }
    }
}

/// Whether `e` is an event that can follow the action taken in phase `p`.
pub open spec fn expects(p: CollectPhase, e: CollectEvent) -> bool {
    match p {
        CollectPhase::Waiting => e is Ready,
        CollectPhase::Connecting => e is Connected || e is ConnectAbandoned || e is ConnectFailed,
        CollectPhase::Polling => e is TimedOut || e is Received || e is Closed || e is Failed,
        CollectPhase::Done => false,
    }
}

/// The bounds that hold while an event is being handled: the kept updates
/// never exceed the limit, and another failed attempt can be counted.
pub open spec fn live_wf(s: CollectModel) -> bool {
    &&& s.collected <= s.max_events
    &&& (s.attempt == 0 || s.attempt < s.reconnect_attempts)
}

/// The well-formedness of a batch: the kept updates never exceed the limit,
/// and an unfinished batch has attempts left.
pub open spec fn collect_wf(s: CollectModel) -> bool {
    &&& s.collected <= s.max_events
    &&& (s.phase is Connecting || s.phase is Polling) ==> s.collected < s.max_events
    &&& s.phase !is Done ==> (s.attempt == 0 || s.attempt < s.reconnect_attempts)
}

pub open spec fn with_phase(s: CollectModel, p: CollectPhase) -> CollectModel {
    CollectModel { phase: p, ..s }
}

pub open spec fn finish(s: CollectModel, keep_stream: bool) -> (CollectModel, CollectAction) {
    (with_phase(s, CollectPhase::Done), CollectAction::Finish { keep_stream })
}

/// A failed attempt: stop once the attempts are used up, else back off.
pub open spec fn after_failure(s: CollectModel) -> (CollectModel, CollectAction) {
    let a = s.attempt + 1;
    if a >= s.reconnect_attempts {
        (CollectModel { attempt: a as usize, phase: CollectPhase::Done, ..s }, CollectAction::Finish { keep_stream: false })
    } else {
        (
            CollectModel { attempt: a as usize, phase: CollectPhase::Waiting, ..s },
            CollectAction::Backoff { nanos: backoff_spec(s.initial_backoff_nanos as nat, (a - 1) as nat) as u64 },
        )
    }
}

/// After polling a stream stopped: a full batch or a passed deadline keeps the
/// stream, a cancellation drops it, anything else counts as a failed attempt.
pub open spec fn after_stream(s: CollectModel, canceled: bool, expired: bool) -> (CollectModel, CollectAction) {
    if s.collected >= s.max_events {
        finish(s, true)
    } else if canceled {
        finish(s, false)
    } else if expired {
        finish(s, true)
    } else {
        after_failure(s)
    }
}

/// At the head of the polling loop: poll again unless the batch is full,
/// canceled or out of time.
pub open spec fn poll_next(s: CollectModel, canceled: bool, expired: bool) -> (CollectModel, CollectAction) {
    if s.collected >= s.max_events || canceled || expired {
        after_stream(s, canceled, expired)
    } else {
        (with_phase(s, CollectPhase::Polling), CollectAction::Poll)
    }
}

/// Whether a received update is kept.
pub open spec fn keeps(s: CollectModel, is_final: bool) -> bool {
    s.include_partial || is_final
}

/// The error recorded when the provider ends the stream.
pub open spec fn closed_error() -> StreamErrorView {
    StreamErrorView::InvalidMessage("provider closed the WebSocket connection"@)
}

pub open spec fn plain(r: (CollectModel, CollectAction)) -> (CollectModel, CollectStep) {
    (r.0, CollectStep { accept: false, action: r.1 })
}

/// The next state and the step for an event.
pub open spec fn collect_next(s: CollectModel, e: CollectEvent) -> (CollectModel, CollectStep) {
    match e {
        CollectEvent::Ready { canceled, expired, holding } => plain(
            if s.collected >= s.max_events || canceled || expired {
                finish(s, true)
            } else if holding {
                (with_phase(s, CollectPhase::Polling), CollectAction::Poll)
            } else {
                (with_phase(s, CollectPhase::Connecting), CollectAction::Connect)
            },
        ),
        CollectEvent::Connected { canceled, expired } => plain(poll_next(s, canceled, expired)),
        CollectEvent::ConnectAbandoned => plain(finish(s, false)),
        CollectEvent::ConnectFailed { error } => plain(after_failure(CollectModel { last_error: Some(error@), ..s })),
        CollectEvent::TimedOut { canceled, expired } => plain(poll_next(s, canceled, expired)),
        CollectEvent::Received { is_final, canceled, expired } => {
            let accept = keeps(s, is_final);
            let s1 = CollectModel {
                attempt: 0,
                collected: (if accept { s.collected + 1 } else { s.collected as int }) as usize,
                ..s
            };
            let r = poll_next(s1, canceled, expired);
            (r.0, CollectStep { accept, action: r.1 })
        },
        CollectEvent::Closed { canceled, expired } => plain(
            after_stream(CollectModel { last_error: Some(closed_error()), ..s }, canceled, expired),
        ),
        CollectEvent::Failed { error, canceled, expired } => plain(
            after_stream(CollectModel { last_error: Some(error@), ..s }, canceled, expired),
        ),
    }
}

/// What a finished batch returns: its last error when nothing was kept and it
/// was not canceled, else the number of kept updates.
pub open spec fn outcome_spec(s: CollectModel, canceled: bool) -> Result<usize, StreamErrorView> {
    if s.collected == 0 && !canceled && s.last_error is Some {
        Err(s.last_error->Some_0)
    } else {
        Ok(s.collected)
    }
}

impl CollectState {
    /// A batch that has kept nothing yet.
    pub fn new(max_events: usize, include_partial: bool, reconnect_attempts: usize, initial_backoff_nanos: u64) -> (s: CollectState)
        ensures
            s@ == (CollectModel {
                max_events,
                include_partial,
                reconnect_attempts,
                initial_backoff_nanos,
                collected: 0,
                attempt: 0,
                last_error: None,
                phase: CollectPhase::Waiting,
            }),
            collect_wf(s@),
    {
        CollectState {
            max_events,
            include_partial,
            reconnect_attempts,
            initial_backoff_nanos,
            collected: 0,
            attempt: 0,
            last_error: None,
            phase: CollectPhase::Waiting,
        }
    }

    /// Count a failed attempt.
    fn record_failure(&mut self) -> (a: CollectAction)
        requires
            live_wf(old(self)@),
        ensures
            (final(self)@, a) == after_failure(old(self)@),
    {
        let next = self.attempt + 1;
        self.attempt = next;
        if next >= self.reconnect_attempts {
            self.phase = CollectPhase::Done;
            CollectAction::Finish { keep_stream: false }
        } else {
            self.phase = CollectPhase::Waiting;
            CollectAction::Backoff { nanos: exponential_backoff(self.initial_backoff_nanos, next - 1) }
        }
    }

    fn stop_polling(&mut self, canceled: bool, expired: bool) -> (a: CollectAction)
        requires
            live_wf(old(self)@),
        ensures
            (final(self)@, a) == after_stream(old(self)@, canceled, expired),
    {
        if self.collected >= self.max_events {
            self.phase = CollectPhase::Done;
            CollectAction::Finish { keep_stream: true }
        } else if canceled {
            self.phase = CollectPhase::Done;
            CollectAction::Finish { keep_stream: false }
        } else if expired {
            self.phase = CollectPhase::Done;
            CollectAction::Finish { keep_stream: true }
        } else {
            self.record_failure()
        }
    }

    fn next_poll(&mut self, canceled: bool, expired: bool) -> (a: CollectAction)
        requires
            live_wf(old(self)@),
        ensures
            (final(self)@, a) == poll_next(old(self)@, canceled, expired),
    {
        if self.collected >= self.max_events || canceled || expired {
            self.stop_polling(canceled, expired)
        } else {
            self.phase = CollectPhase::Polling;
            CollectAction::Poll
        }
    }

    /// Take one event and decide what to do next.
    pub fn step(&mut self, event: CollectEvent) -> (r: CollectStep)
        requires
            collect_wf(old(self)@),
            expects(old(self).phase, event),
        ensures
            (final(self)@, r) == collect_next(old(self)@, event),
            collect_wf(final(self)@),
    {
        match event {
            CollectEvent::Ready { canceled, expired, holding } => {
                let action = if self.collected >= self.max_events || canceled || expired {
                    self.phase = CollectPhase::Done;
                    CollectAction::Finish { keep_stream: true }
                } else if holding {
                    self.phase = CollectPhase::Polling;
                    CollectAction::Poll
                } else {
                    self.phase = CollectPhase::Connecting;
                    CollectAction::Connect
                };
                CollectStep { accept: false, action }
            },
            CollectEvent::Connected { canceled, expired } => {
                let action = self.next_poll(canceled, expired);
                CollectStep { accept: false, action }
            },
            CollectEvent::ConnectAbandoned => {
                self.phase = CollectPhase::Done;
                CollectStep { accept: false, action: CollectAction::Finish { keep_stream: false } }
            },
            CollectEvent::ConnectFailed { error } => {
                self.last_error = Some(error);
                let action = self.record_failure();
                CollectStep { accept: false, action }
            },
            CollectEvent::TimedOut { canceled, expired } => {
                let action = self.next_poll(canceled, expired);
                CollectStep { accept: false, action }
            },
            CollectEvent::Received { is_final, canceled, expired } => {
                let accept = self.include_partial || is_final;
                self.attempt = 0;
                if accept {
                    self.collected = self.collected + 1;
                }
                let action = self.next_poll(canceled, expired);
                CollectStep { accept, action }
            },
            CollectEvent::Closed { canceled, expired } => {
                self.last_error = Some(LiveStreamError::InvalidMessage(owned("provider closed the WebSocket connection")));
                let action = self.stop_polling(canceled, expired);
                CollectStep { accept: false, action }
            },
            CollectEvent::Failed { error, canceled, expired } => {
                self.last_error = Some(error);
                let action = self.stop_polling(canceled, expired);
                CollectStep { accept: false, action }
            },
        }
    }

    /// What the finished batch returns, given whether it was canceled: its
    /// last error when nothing was kept and it was not canceled, else the
    /// number of kept updates.
    pub fn outcome(self, canceled: bool) -> (r: Result<usize, LiveStreamError>)
        ensures
            match outcome_spec(self@, canceled) {
                Ok(n) => r == Ok::<usize, LiveStreamError>(n),
                Err(e) => r is Err && r->Err_0@ == e,
            },
    {
        if self.collected == 0 && !canceled {
            match self.last_error {
                Some(e) => return Err(e),
                None => {},
            }
        }
        Ok(self.collected)
    }
}

/// A batch never keeps more updates than its limit, and every event keeps
/// the batch well-formed.
pub proof fn law_batch_within_limit(s: CollectModel, e: CollectEvent)
    requires
        collect_wf(s),
        expects(s.phase, e),
    ensures
        collect_wf(collect_next(s, e).0),
        collect_next(s, e).0.collected <= s.max_events,
{
}

/// Only a received update can be kept, it is counted exactly once, and an
/// update of an open candle is kept only when partial updates are included.
pub proof fn law_kept_updates_are_counted(s: CollectModel, e: CollectEvent)
    requires
        collect_wf(s),
        expects(s.phase, e),
    ensures
        collect_next(s, e).1.accept ==> (e matches CollectEvent::Received { is_final, .. } && (s.include_partial || is_final)),
        collect_next(s, e).0.collected == s.collected + (if collect_next(s, e).1.accept { 1int } else { 0int }),
{
}

/// A canceled batch stops at the next event.
pub proof fn law_cancellation_stops(s: CollectModel, e: CollectEvent)
    requires
        collect_wf(s),
        expects(s.phase, e),
        match e {
            CollectEvent::Ready { canceled, .. } => canceled,
            CollectEvent::Connected { canceled, .. } => canceled,
            CollectEvent::TimedOut { canceled, .. } => canceled,
            CollectEvent::Received { canceled, .. } => canceled,
            CollectEvent::Closed { canceled, .. } => canceled,
            CollectEvent::Failed { canceled, .. } => canceled,
            _ => false,
        },
    ensures
        collect_next(s, e).1.action is Finish,
        collect_next(s, e).0.phase is Done,
{
}

/// A batch whose deadline has passed stops at the next event; while polling a
/// healthy stream, the stream is kept for the next batch.
pub proof fn law_deadline_stops(s: CollectModel, e: CollectEvent)
    requires
        collect_wf(s),
        expects(s.phase, e),
        match e {
            CollectEvent::Ready { expired, .. } => expired,
            CollectEvent::Connected { expired, .. } => expired,
            CollectEvent::TimedOut { expired, .. } => expired,
            CollectEvent::Received { expired, .. } => expired,
            CollectEvent::Closed { expired, .. } => expired,
            CollectEvent::Failed { expired, .. } => expired,
            _ => false,
        },
    ensures
        collect_next(s, e).1.action is Finish,
        (e matches CollectEvent::TimedOut { canceled, .. } && !canceled) ==> collect_next(s, e).1.action
            == (CollectAction::Finish { keep_stream: true }),
        (e matches CollectEvent::Received { canceled, .. } && !canceled) ==> collect_next(s, e).1.action
            == (CollectAction::Finish { keep_stream: true }),
{
}

/// Filling the batch stops it and keeps the stream for the next batch.
pub proof fn law_full_batch_keeps_stream(s: CollectModel, e: CollectEvent)
    requires
        collect_wf(s),
        expects(s.phase, e),
        e is Received,
        collect_next(s, e).1.accept,
        s.collected + 1 == s.max_events,
    ensures
        collect_next(s, e).1.action == (CollectAction::Finish { keep_stream: true }),
{
}

/// Failed attempts are bounded: a back-off always leaves an attempt, a
/// failure that uses up the attempts stops the batch and drops the stream,
/// and a received update clears the count.
pub proof fn law_attempts_bounded(s: CollectModel, e: CollectEvent)
    requires
        collect_wf(s),
        expects(s.phase, e),
    ensures
        collect_next(s, e).1.action is Backoff ==> collect_next(s, e).0.attempt < s.reconnect_attempts
            && collect_next(s, e).0.attempt == s.attempt + 1,
        (e is ConnectFailed && s.attempt + 1 >= s.reconnect_attempts) ==> collect_next(s, e).1.action
            == (CollectAction::Finish { keep_stream: false }),
        e is Received ==> collect_next(s, e).0.attempt == 0,
{
}

/// A back-off waits the exponential delay for the attempt that failed.
pub proof fn law_backoff_delay(s: CollectModel, e: CollectEvent)
    requires
        collect_wf(s),
        expects(s.phase, e),
        collect_next(s, e).1.action is Backoff,
    ensures
        collect_next(s, e).1.action == (CollectAction::Backoff {
            nanos: backoff_spec(s.initial_backoff_nanos as nat, s.attempt as nat) as u64,
        }),
{
}

/// A stream that fails, or that the provider closes, while the batch is still
/// running (not full, not canceled, not past its deadline) counts as one
/// failed attempt, like a failed connection: with attempts left the batch
/// drops the stream, waits the exponential delay for that attempt and
/// reconnects; only once the attempts are used up does it stop. The error is
/// recorded and nothing is kept.
pub proof fn law_stream_failure_reconnects(s: CollectModel, e: CollectEvent)
    requires
        collect_wf(s),
        s.phase == CollectPhase::Polling,
        match e {
            CollectEvent::Failed { canceled, expired, .. } => !canceled && !expired,
            CollectEvent::Closed { canceled, expired } => !canceled && !expired,
            _ => false,
        },
    ensures
        ({
            let (t, step) = collect_next(s, e);
            &&& !step.accept
            &&& t.collected == s.collected
            &&& t.attempt == s.attempt + 1
            &&& (e matches CollectEvent::Failed { error, .. } ==> t.last_error == Some(error@))
            &&& (e is Closed ==> t.last_error == Some(StreamErrorView::InvalidMessage("provider closed the WebSocket connection"@)))
            &&& s.attempt + 1 < s.reconnect_attempts ==> {
                &&& step.action == (CollectAction::Backoff {
                    nanos: backoff_spec(s.initial_backoff_nanos as nat, s.attempt as nat) as u64,
                })
                &&& t.phase == CollectPhase::Waiting
            }
            &&& s.attempt + 1 >= s.reconnect_attempts ==> {
                &&& step.action == (CollectAction::Finish { keep_stream: false })
                &&& t.phase == CollectPhase::Done
            }
        }),
{
}

/// Over a whole batch: a stream error while collecting is retried as long as
/// attempts remain. From a fresh batch with `n > 1` allowed attempts, a
/// successful connection followed by a stream failure leads to a back-off,
/// not to the end of the batch.
pub proof fn law_first_stream_error_is_retried(
    max_events: usize,
    include_partial: bool,
    reconnect_attempts: usize,
    initial_backoff_nanos: u64,
    error: LiveStreamError,
)
    requires
        max_events > 0,
        reconnect_attempts > 1,
    ensures
        ({
            let s0 = CollectModel {
                max_events,
                include_partial,
                reconnect_attempts,
                initial_backoff_nanos,
                collected: 0,
                attempt: 0,
                last_error: None,
                phase: CollectPhase::Waiting,
            };
            let s1 = collect_next(s0, CollectEvent::Ready { canceled: false, expired: false, holding: true }).0;
            let (s2, step) = collect_next(s1, CollectEvent::Failed { error, canceled: false, expired: false });
            &&& s1.phase == CollectPhase::Polling
            &&& step.action == (CollectAction::Backoff { nanos: backoff_spec(initial_backoff_nanos as nat, 0) as u64 })
            &&& s2.phase == CollectPhase::Waiting
            &&& s2.attempt == 1
        }),
{
}

/// A batch fails only when it kept nothing, was not canceled, and saw an
/// error; the error is the last one seen. Otherwise it returns what it kept.
pub proof fn law_error_only_when_empty(s: CollectModel, canceled: bool)
    ensures
        outcome_spec(s, canceled) is Err <==> (s.collected == 0 && !canceled && s.last_error is Some),
        outcome_spec(s, canceled) is Err ==> outcome_spec(s, canceled)->Err_0 == s.last_error->Some_0,
        outcome_spec(s, canceled) is Ok ==> outcome_spec(s, canceled)->Ok_0 == s.collected,
{
}

} // verus!
