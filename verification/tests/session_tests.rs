use localchat::{
    run_session, ChunkFault, ChunkParseError, DeltaEvent, Notification, SessionEvent,
    SessionOutcome, StepAction, StreamingSession,
};

fn content(s: &str) -> SessionEvent {
    SessionEvent::Delta(DeltaEvent::Content(s.to_string()))
}

fn chunk_deltas(notifications: &[Notification]) -> Vec<String> {
    let mut out = Vec::new();
    for n in notifications {
        if let Notification::Chunk { delta, .. } = n {
            out.push(delta.clone());
        }
    }
    out
}

fn finished_count(notifications: &[Notification]) -> usize {
    let mut count = 0;
    for n in notifications {
        if let Notification::Finished { .. } = n {
            count += 1;
        }
    }
    count
}

#[test]
fn step_appends_and_emits() {
    let mut s = StreamingSession::begin(1, 2);
    match s.step(false, content("Hel")) {
        StepAction::Emit(d) => assert_eq!(d, "Hel"),
        other => panic!("expected an emit, got {:?}", other),
    }
    match s.step(false, content("lo")) {
        StepAction::Emit(d) => assert_eq!(d, "lo"),
        other => panic!("expected an emit, got {:?}", other),
    }
    assert_eq!(s.content_text(), "Hello");
    assert!(matches!(
        s.step(false, SessionEvent::Delta(DeltaEvent::End)),
        StepAction::Finalize
    ));
    let msg = s.finalize(42).expect("content should be persisted");
    assert_eq!(msg.content, "Hello");
    assert_eq!(msg.role, "assistant");
    assert_eq!(msg.id, 2);
    assert_eq!(msg.conversation_id, 1);
    assert_eq!(msg.timestamp, 42);
}

#[test]
fn cancellation_wins_over_the_event() {
    let mut s = StreamingSession::begin(1, 2);
    assert!(matches!(s.step(true, content("never")), StepAction::Finalize));
    assert_eq!(s.outcome, SessionOutcome::Cancelled);
    assert_eq!(s.content_text(), "");
    assert!(s.finalize(0).is_none());
}

#[test]
fn error_event_ends_in_errored() {
    let mut s = StreamingSession::begin(1, 2);
    let err = ChunkParseError { kind: ChunkFault::NotJson, payload: b"x".to_vec() };
    assert!(matches!(
        s.step(false, SessionEvent::Delta(DeltaEvent::Error(err))),
        StepAction::Finalize
    ));
    assert_eq!(s.outcome, SessionOutcome::Errored);
}

#[test]
fn run_persists_the_concatenation() {
    let events = vec![
        (false, content("Hel")),
        (false, content("lo")),
        (false, SessionEvent::Delta(DeltaEvent::End)),
    ];
    let run = run_session(9, 10, events, 5);
    assert_eq!(run.outcome, SessionOutcome::Completed);
    assert_eq!(chunk_deltas(&run.notifications), vec!["Hel", "lo"]);
    assert_eq!(finished_count(&run.notifications), 1);
    let msg = run.persisted.expect("content should be persisted");
    assert_eq!(msg.content, "Hello");
    assert_eq!(msg.id, 10);
}

#[test]
fn cancel_stops_all_later_chunks() {
    let events = vec![
        (false, content("a")),
        (true, content("b")),
        (false, content("c")),
    ];
    let run = run_session(1, 2, events, 0);
    assert_eq!(run.outcome, SessionOutcome::Cancelled);
    assert_eq!(chunk_deltas(&run.notifications), vec!["a"]);
    assert_eq!(finished_count(&run.notifications), 1);
    let msg = run.persisted.expect("partial content should be persisted");
    assert_eq!(msg.content, "a");
}

#[test]
fn cancel_before_any_chunk_persists_nothing() {
    let events = vec![(true, content("a")), (false, content("b"))];
    let run = run_session(1, 2, events, 0);
    assert_eq!(run.outcome, SessionOutcome::Cancelled);
    assert!(chunk_deltas(&run.notifications).is_empty());
    assert_eq!(finished_count(&run.notifications), 1);
    assert!(run.persisted.is_none());
}

#[test]
fn error_keeps_earlier_content() {
    let err = ChunkParseError { kind: ChunkFault::UnrecognizedShape, payload: b"{}".to_vec() };
    let events = vec![
        (false, content("keep")),
        (false, SessionEvent::Delta(DeltaEvent::Error(err))),
        (false, content("lost")),
    ];
    let run = run_session(1, 2, events, 0);
    assert_eq!(run.outcome, SessionOutcome::Errored);
    assert_eq!(chunk_deltas(&run.notifications), vec!["keep"]);
    let msg = run.persisted.expect("partial content should be persisted");
    assert_eq!(msg.content, "keep");
}

#[test]
fn exhausted_stream_completes() {
    let events = vec![(false, content("x"))];
    let run = run_session(1, 2, events, 0);
    assert_eq!(run.outcome, SessionOutcome::Completed);
    assert_eq!(run.persisted.expect("persisted").content, "x");
}

#[test]
fn transport_failure_errors_but_finishes() {
    let events = vec![(false, content("x")), (false, SessionEvent::Failed)];
    let run = run_session(1, 2, events, 0);
    assert_eq!(run.outcome, SessionOutcome::Errored);
    assert_eq!(finished_count(&run.notifications), 1);
}

#[test]
fn started_comes_first_finished_last() {
    let events = vec![(false, content("x")), (false, SessionEvent::Closed)];
    let run = run_session(3, 4, events, 0);
    assert!(matches!(
        run.notifications.first(),
        Some(Notification::Started { conversation_id: 3, message_id: 4 })
    ));
    assert!(matches!(
        run.notifications.last(),
        Some(Notification::Finished { message_id: 4 })
    ));
}

#[test]
fn empty_content_is_not_persisted() {
    let events = vec![(false, SessionEvent::Delta(DeltaEvent::End))];
    let run = run_session(1, 2, events, 0);
    assert_eq!(run.outcome, SessionOutcome::Completed);
    assert!(run.persisted.is_none());
    assert_eq!(finished_count(&run.notifications), 1);
}
