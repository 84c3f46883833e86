use backtide_core::collect::{CollectAction, CollectEvent, CollectPhase, CollectState};
use backtide_core::live::{exponential_backoff, LiveStreamError};
use std::collections::VecDeque;

/// A scripted stream: each poll yields the next scripted result (an update is
/// its open time and whether the candle closed); an exhausted script means the
/// provider closed the stream. A pending stream never yields.
struct Stream {
    results: VecDeque<Result<(u64, bool), LiveStreamError>>,
    pending: bool,
}

fn mock(updates: Vec<(u64, bool)>) -> Stream {
    Stream { results: updates.into_iter().map(Ok).collect(), pending: false }
}

fn scripted(results: Vec<Result<(u64, bool), LiveStreamError>>) -> Stream {
    Stream { results: results.into(), pending: false }
}

fn pending() -> Stream {
    Stream { results: VecDeque::new(), pending: true }
}

struct Batch {
    max_events: usize,
    timeout_ms: u64,
    include_partial: bool,
    reconnect_attempts: usize,
    cancel_after_polls: Option<usize>,
}

fn batch(max_events: usize, include_partial: bool, reconnect_attempts: usize) -> Batch {
    Batch { max_events, timeout_ms: 1_000, include_partial, reconnect_attempts, cancel_after_polls: None }
}

type Collected = Result<(Vec<(u64, bool)>, Option<Stream>), LiveStreamError>;

/// Runs one batch the way the live feed does: performs each action of the
/// collection state machine and reports what happened.
fn run(b: &Batch, connections: &mut VecDeque<Result<Option<Stream>, LiveStreamError>>, retained: Option<Stream>) -> Collected {
    let mut state = CollectState::new(b.max_events, b.include_partial, b.reconnect_attempts, 0);
    let mut held = retained;
    let mut updates = Vec::new();
    let mut now_ms = 0u64;
    let mut polls = 0usize;
    let mut canceled = false;
    let mut event = CollectEvent::Ready { canceled, expired: false, holding: held.is_some() };
    let mut received: Option<(u64, bool)> = None;
    loop {
        let step = state.step(event);
        if step.accept {
            updates.push(received.take().unwrap());
        }
        match step.action {
            CollectAction::Connect => {
                event = match connections.pop_front().unwrap() {
                    Ok(Some(stream)) => {
                        held = Some(stream);
                        CollectEvent::Connected { canceled, expired: now_ms >= b.timeout_ms }
                    },
                    Ok(None) => CollectEvent::ConnectAbandoned,
                    Err(error) => CollectEvent::ConnectFailed { error },
                };
            },
            CollectAction::Poll => {
                let stream = held.as_mut().unwrap();
                polls += 1;
                if b.cancel_after_polls == Some(polls) {
                    canceled = true;
                }
                if stream.pending {
                    now_ms = (now_ms + 250).min(b.timeout_ms);
                    event = CollectEvent::TimedOut { canceled, expired: now_ms >= b.timeout_ms };
                } else {
                    let expired = now_ms >= b.timeout_ms;
                    event = match stream.results.pop_front() {
                        Some(Ok((open_ts, is_final))) => {
                            received = Some((open_ts, is_final));
                            CollectEvent::Received { is_final, canceled, expired }
                        },
                        Some(Err(error)) => CollectEvent::Failed { error, canceled, expired },
                        None => CollectEvent::Closed { canceled, expired },
                    };
                }
            },
            CollectAction::Backoff { nanos } => {
                held = None;
                now_ms += nanos / 1_000_000;
                event = CollectEvent::Ready { canceled, expired: now_ms >= b.timeout_ms, holding: false };
            },
            CollectAction::Finish { keep_stream } => {
                if !keep_stream {
                    held = None;
                }
                break;
            },
        }
    }
    state.outcome(canceled).map(|n| {
        assert_eq!(n, updates.len());
        (updates, held)
    })
}

#[test]
fn reusable_collection_retains_stream_between_bounded_batches() {
    let stream = mock(vec![(1_000, true), (1_060, true)]);
    let b = batch(1, true, 1);
    let (first, retained) = run(&b, &mut VecDeque::new(), Some(stream)).unwrap();
    let (second, retained) = run(&b, &mut VecDeque::new(), retained).unwrap();

    assert_eq!(first[0].0, 1_000);
    assert_eq!(second[0].0, 1_060);
    assert!(retained.is_some());
}

#[test]
fn collection_reconnects_after_a_stream_closes() {
    let mut connections = VecDeque::from([Ok(Some(mock(Vec::new()))), Ok(Some(mock(vec![(1_000, true)])))]);

    let (updates, retained) = run(&batch(1, true, 2), &mut connections, None).unwrap();

    assert_eq!(updates.len(), 1);
    assert_eq!(updates[0].0, 1_000);
    assert!(retained.is_some());
    assert!(connections.is_empty());
}

#[test]
fn collection_stops_after_reconnect_attempts_are_exhausted() {
    let mut connections = VecDeque::from([
        Err(LiveStreamError::InvalidMessage("first failure".to_owned())),
        Err(LiveStreamError::InvalidMessage("final failure".to_owned())),
    ]);

    let result = run(&batch(1, true, 2), &mut connections, None);
    let Err(error) = result else {
        panic!("retry exhaustion was not returned");
    };

    assert!(error.message().contains("final failure"));
    assert!(connections.is_empty());
}

#[test]
fn collection_filters_partial_updates_when_requested() {
    let stream = mock(vec![(1_000, false), (1_000, true)]);

    let (updates, retained) = run(&batch(1, false, 1), &mut VecDeque::new(), Some(stream)).unwrap();

    assert_eq!(updates.len(), 1);
    assert!(updates[0].1);
    assert!(retained.is_some());
}

#[test]
fn collection_returns_received_updates_before_a_stream_error() {
    let stream = scripted(vec![Ok((1_000, true)), Err(LiveStreamError::InvalidMessage("bad candle".to_owned()))]);

    let (updates, retained) = run(&batch(2, true, 1), &mut VecDeque::new(), Some(stream)).unwrap();

    assert_eq!(updates.len(), 1);
    assert_eq!(updates[0].0, 1_000);
    assert!(retained.is_none());
}

#[test]
fn collection_reports_error_when_stream_fails_before_an_update() {
    let stream = scripted(vec![Err(LiveStreamError::InvalidMessage("bad candle".to_owned()))]);

    let result = run(&batch(1, true, 1), &mut VecDeque::new(), Some(stream));
    let Err(error) = result else {
        panic!("stream error was not returned");
    };

    assert!(error.message().contains("bad candle"));
}

#[test]
fn collection_reports_provider_close_before_an_update() {
    let result = run(&batch(1, true, 1), &mut VecDeque::new(), Some(mock(Vec::new())));
    let Err(error) = result else {
        panic!("provider close was not returned");
    };

    assert!(error.message().contains("provider closed"));
}

#[test]
fn collection_timeout_keeps_a_healthy_pending_stream() {
    let b = Batch { timeout_ms: 20, ..batch(1, true, 1) };

    let result = run(&b, &mut VecDeque::new(), Some(pending())).unwrap();

    assert!(result.0.is_empty());
    assert!(result.1.is_some());
}

#[test]
fn cancellation_interrupts_a_pending_stream_poll() {
    let b = Batch { timeout_ms: 10_000, cancel_after_polls: Some(1), ..batch(1, true, 1) };

    let (updates, retained) = run(&b, &mut VecDeque::new(), Some(pending())).unwrap();

    assert!(updates.is_empty());
    assert!(retained.is_none());
}

#[test]
fn full_batch_keeps_the_stream_and_counts_every_kept_update() {
    let mut s = CollectState::new(2, true, 3, 0);
    s.step(CollectEvent::Ready { canceled: false, expired: false, holding: true });
    let first = s.step(CollectEvent::Received { is_final: false, canceled: false, expired: false });
    assert!(first.accept);
    assert_eq!(first.action, CollectAction::Poll);
    let second = s.step(CollectEvent::Received { is_final: true, canceled: false, expired: false });
    assert!(second.accept);
    assert_eq!(second.action, CollectAction::Finish { keep_stream: true });
    assert_eq!(s.collected, 2);
    assert_eq!(s.phase, CollectPhase::Done);
    assert_eq!(s.outcome(false).unwrap(), 2);
}

#[test]
fn failed_connections_back_off_exponentially() {
    let initial = 100_000_000;
    let mut s = CollectState::new(1, true, 3, initial);
    assert_eq!(s.step(CollectEvent::Ready { canceled: false, expired: false, holding: false }).action, CollectAction::Connect);
    let step = s.step(CollectEvent::ConnectFailed { error: LiveStreamError::WebSocket("refused".to_owned()) });
    assert_eq!(step.action, CollectAction::Backoff { nanos: exponential_backoff(initial, 0) });
    s.step(CollectEvent::Ready { canceled: false, expired: false, holding: false });
    let step = s.step(CollectEvent::ConnectFailed { error: LiveStreamError::WebSocket("refused again".to_owned()) });
    assert_eq!(step.action, CollectAction::Backoff { nanos: 200_000_000 });
    s.step(CollectEvent::Ready { canceled: false, expired: false, holding: false });
    let step = s.step(CollectEvent::ConnectFailed { error: LiveStreamError::WebSocket("gone".to_owned()) });
    assert_eq!(step.action, CollectAction::Finish { keep_stream: false });
    assert_eq!(s.outcome(false).unwrap_err(), LiveStreamError::WebSocket("gone".to_owned()));
}

#[test]
fn canceled_batch_never_fails() {
    let mut s = CollectState::new(1, true, 1, 0);
    s.step(CollectEvent::Ready { canceled: false, expired: false, holding: false });
    let step = s.step(CollectEvent::ConnectFailed { error: LiveStreamError::WebSocket("refused".to_owned()) });
    assert_eq!(step.action, CollectAction::Finish { keep_stream: false });
    assert_eq!(s.outcome(true), Ok(0));
}

#[test]
fn zero_sized_batch_finishes_at_once() {
    let mut s = CollectState::new(0, true, 1, 0);
    let step = s.step(CollectEvent::Ready { canceled: false, expired: false, holding: true });
    assert_eq!(step.action, CollectAction::Finish { keep_stream: true });
    assert_eq!(s.outcome(false), Ok(0));
}

#[test]
fn abandoned_connection_ends_the_batch() {
    let mut s = CollectState::new(1, true, 4, 0);
    s.step(CollectEvent::Ready { canceled: false, expired: false, holding: false });
    let step = s.step(CollectEvent::ConnectAbandoned);
    assert_eq!(step.action, CollectAction::Finish { keep_stream: false });
    assert_eq!(s.outcome(false), Ok(0));
}
