use localchat::{run_turn_frames, Notification, SessionOutcome};

fn payloads(frames: &[&str]) -> Vec<Vec<u8>> {
    frames.iter().map(|f| f.as_bytes().to_vec()).collect()
}

fn chunk_deltas(notifications: &[Notification]) -> Vec<String> {
    let mut out = Vec::new();
    for n in notifications {
        if let Notification::Chunk { delta, .. } = n {
            out.push(delta.clone());
        }
    }
    out
}

fn count_started(notifications: &[Notification]) -> usize {
    notifications.iter().filter(|n| matches!(n, Notification::Started { .. })).count()
}

fn count_finished(notifications: &[Notification]) -> usize {
    notifications.iter().filter(|n| matches!(n, Notification::Finished { .. })).count()
}

#[test]
fn two_fragments_then_sentinel() {
    let ps = payloads(&[
        "{\"choices\":[{\"delta\":{\"content\":\"Hel\"}}]}",
        "{\"choices\":[{\"delta\":{\"content\":\"lo\"}}]}",
        "[DONE]",
    ]);
    let run = run_turn_frames(1, 2, &ps, 0);
    assert_eq!(chunk_deltas(&run.notifications), vec!["Hel", "lo"]);
    assert_eq!(run.persisted.expect("persisted").content, "Hello");
    assert_eq!(count_started(&run.notifications), 1);
    assert_eq!(count_finished(&run.notifications), 1);
    assert_eq!(run.outcome, SessionOutcome::Completed);
}

#[test]
fn ping_then_content_then_sentinel() {
    let ps = payloads(&[
        "{\"type\":\"ping\"}",
        "{\"choices\":[{\"delta\":{\"content\":\"Hi\"}}]}",
        "[DONE]",
    ]);
    let run = run_turn_frames(1, 2, &ps, 0);
    assert_eq!(run.persisted.expect("persisted").content, "Hi");
    assert_eq!(run.outcome, SessionOutcome::Completed);
}

#[test]
fn single_unrecognized_frame() {
    let ps = payloads(&["{\"nothing\":true}"]);
    let run = run_turn_frames(1, 2, &ps, 0);
    assert!(chunk_deltas(&run.notifications).is_empty());
    assert!(run.persisted.is_none());
    assert_eq!(count_finished(&run.notifications), 1);
    assert_eq!(run.outcome, SessionOutcome::Errored);
}

#[test]
fn fault_preserves_earlier_fragments() {
    let ps = payloads(&[
        "{\"choices\":[{\"delta\":{\"content\":\"part\"}}]}",
        "garbage",
        "{\"choices\":[{\"delta\":{\"content\":\"lost\"}}]}",
    ]);
    let run = run_turn_frames(1, 2, &ps, 0);
    assert_eq!(chunk_deltas(&run.notifications), vec!["part"]);
    assert_eq!(run.persisted.expect("persisted").content, "part");
    assert_eq!(run.outcome, SessionOutcome::Errored);
}

#[test]
fn nothing_after_sentinel_counts() {
    let ps = payloads(&[
        "[DONE]",
        "{\"choices\":[{\"delta\":{\"content\":\"late\"}}]}",
    ]);
    let run = run_turn_frames(1, 2, &ps, 0);
    assert!(chunk_deltas(&run.notifications).is_empty());
    assert!(run.persisted.is_none());
    assert_eq!(run.outcome, SessionOutcome::Completed);
}

#[test]
fn stream_without_sentinel_completes() {
    let ps = payloads(&["{\"choices\":[{\"delta\":{\"content\":\"only\"}}]}"]);
    let run = run_turn_frames(7, 8, &ps, 3);
    let msg = run.persisted.expect("persisted");
    assert_eq!(msg.content, "only");
    assert_eq!(msg.id, 8);
    assert_eq!(msg.conversation_id, 7);
    assert_eq!(msg.timestamp, 3);
    assert_eq!(msg.role, "assistant");
    assert_eq!(run.outcome, SessionOutcome::Completed);
}

#[test]
fn ids_ride_on_every_notification() {
    let ps = payloads(&[
        "{\"choices\":[{\"delta\":{\"content\":\"x\"}}]}",
        "[DONE]",
    ]);
    let run = run_turn_frames(11, 12, &ps, 0);
    for n in &run.notifications {
        match n {
            Notification::Started { conversation_id, message_id } => {
                assert_eq!((*conversation_id, *message_id), (11, 12));
            }
            Notification::Chunk { conversation_id, message_id, .. } => {
                assert_eq!((*conversation_id, *message_id), (11, 12));
            }
            Notification::Finished { message_id } => assert_eq!(*message_id, 12),
        }
    }
}
