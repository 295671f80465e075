use vstd::prelude::*;

use crate::delta::{classify_frame, extract_delta, sentinel, trimmed, DeltaEvent, FrameClass};
use crate::session::{
    live, replay_chunks, replay_outcome, run_session, Notification, SessionEvent, SessionOutcome,
    SessionRun,
};

verus! {

/// The fragments the extractor yields over a sequence of decoded payloads,
/// in order, up to the sentinel or the first fault. Dropped payloads —
/// control frames, chunks without content — contribute nothing.
pub open spec fn frame_chunks(ps: Seq<Seq<u8>>) -> Seq<Seq<char>>
    decreases ps.len(),
{
    if ps.len() == 0 {
        Seq::empty()
    } else {
        match classify_frame(ps[0]) {
            FrameClass::Fragment(c) => seq![c] + frame_chunks(ps.drop_first()),
            FrameClass::Dropped => frame_chunks(ps.drop_first()),
            FrameClass::Finished => Seq::empty(),
            FrameClass::Faulted(_) => Seq::empty(),
        }
    }
}

/// The outcome a session reaches over these payloads: the sentinel — or the
/// payloads running out — completes it, a fault ends it in error.
pub open spec fn frame_outcome(ps: Seq<Seq<u8>>) -> SessionOutcome
    decreases ps.len(),
{
    if ps.len() == 0 {
        SessionOutcome::Completed
    } else {
        match classify_frame(ps[0]) {
            FrameClass::Fragment(_) => frame_outcome(ps.drop_first()),
            FrameClass::Dropped => frame_outcome(ps.drop_first()),
            FrameClass::Finished => SessionOutcome::Completed,
            FrameClass::Faulted(_) => SessionOutcome::Errored,
        }
    }
}

/// A payload prefix on which the session keeps running.
pub open spec fn live_frames(ps: Seq<Seq<u8>>) -> bool {
    forall|j: int|
        0 <= j < ps.len() ==> ((#[trigger] classify_frame(ps[j])) is Fragment || classify_frame(
            ps[j],
        ) is Dropped)
}

proof fn lemma_live_frames_drop_first(ps: Seq<Seq<u8>>)
    requires
        live_frames(ps),
        ps.len() > 0,
    ensures
        live_frames(ps.drop_first()),
{
    assert forall|j: int|
        0 <= j < ps.drop_first().len() implies ((#[trigger] classify_frame(
        ps.drop_first()[j],
    )) is Fragment || classify_frame(ps.drop_first()[j]) is Dropped) by {
        assert(ps.drop_first()[j] == ps[j + 1]);
    }
}

proof fn lemma_frame_push(ps: Seq<Seq<u8>>, p: Seq<u8>)
    requires
        live_frames(ps),
    ensures
        classify_frame(p) matches FrameClass::Fragment(c) ==> frame_chunks(ps.push(p))
            == frame_chunks(ps).push(c),
        classify_frame(p) is Dropped ==> frame_chunks(ps.push(p)) == frame_chunks(ps),
    decreases ps.len(),
{
    if ps.len() == 0 {
        assert(ps.push(p)[0] == p);
        let tail = ps.push(p).drop_first();
        assert(tail =~= Seq::<Seq<u8>>::empty());
        assert(frame_chunks(tail) =~= Seq::<Seq<char>>::empty());
        match classify_frame(p) {
            FrameClass::Fragment(c) => {
                assert(frame_chunks(ps.push(p)) =~= frame_chunks(ps).push(c));
            },
            _ => {},
        }
    } else {
        lemma_live_frames_drop_first(ps);
        lemma_frame_push(ps.drop_first(), p);
        assert(ps.push(p)[0] == ps[0]);
        assert(ps.push(p).drop_first() =~= ps.drop_first().push(p));
        match classify_frame(p) {
            FrameClass::Fragment(c) => {
                match classify_frame(ps[0]) {
                    FrameClass::Fragment(c0) => {
                        assert(frame_chunks(ps.push(p)) =~= frame_chunks(ps).push(c));
                    },
                    FrameClass::Dropped => {},
                    _ => {
                        assert(false);
                    },
                }
            },
            _ => {},
        }
    }
}

/// Everything after the sentinel or the first fault is dead: it adds no
/// fragment, and the outcome is the one that payload forced.
pub proof fn lemma_frame_stops(ps: Seq<Seq<u8>>, i: int)
    requires
        0 <= i < ps.len(),
        live_frames(ps.take(i)),
        classify_frame(ps[i]) is Finished || classify_frame(ps[i]) is Faulted,
    ensures
        frame_chunks(ps) == frame_chunks(ps.take(i)),
        frame_outcome(ps) == (if classify_frame(ps[i]) is Finished {
            SessionOutcome::Completed
        } else {
            SessionOutcome::Errored
        }),
    decreases i,
{
    if i == 0 {
        assert(frame_chunks(ps.take(0)) =~= Seq::<Seq<char>>::empty());
        assert(frame_chunks(ps) =~= Seq::<Seq<char>>::empty());
    } else {
        assert(ps.take(i)[0] == ps[0]);
        assert forall|j: int|
            0 <= j < i - 1 implies ((#[trigger] classify_frame(
            ps.drop_first().take(i - 1)[j],
        )) is Fragment || classify_frame(ps.drop_first().take(i - 1)[j]) is Dropped) by {
            assert(ps.drop_first().take(i - 1)[j] == ps.take(i)[j + 1]);
        }
        assert(ps.drop_first()[i - 1] == ps[i]);
        lemma_frame_stops(ps.drop_first(), i - 1);
        assert(ps.take(i).drop_first() =~= ps.drop_first().take(i - 1));
        match classify_frame(ps[0]) {
            FrameClass::Fragment(c) => {
                assert(frame_chunks(ps) == seq![c] + frame_chunks(ps.drop_first()));
                assert(frame_chunks(ps.take(i)) == seq![c] + frame_chunks(
                    ps.drop_first().take(i - 1),
                ));
            },
            FrameClass::Dropped => {},
            _ => {
                assert(false);
            },
        }
    }
}

/// A stream whose payloads all keep the session running completes when they
/// run out.
pub proof fn lemma_frame_all_live(ps: Seq<Seq<u8>>)
    requires
        live_frames(ps),
    ensures
        frame_outcome(ps) == SessionOutcome::Completed,
    decreases ps.len(),
{
    if ps.len() > 0 {
        lemma_live_frames_drop_first(ps);
        lemma_frame_all_live(ps.drop_first());
    }
}

/// The terminal sentinel yields neither a fragment nor an error: a payload
/// classifies as the end of the stream exactly when it trims to the
/// sentinel.
pub proof fn lemma_sentinel_frame(payload: Seq<u8>)
    ensures
        classify_frame(payload) is Finished <==> trimmed(payload) == sentinel(),
{
}

/// A payload that parses as JSON and is recognized as a control frame — and
/// is not a chunk — is dropped: no fragment, no error.
pub proof fn lemma_control_frame_dropped(payload: Seq<u8>)
    requires
        trimmed(payload) != sentinel(),
        crate::json::json_doc(trimmed(payload)) matches Some(m) && crate::delta::ping_shape(m)
            && !crate::delta::chunk_shape(m),
    ensures
        classify_frame(payload) is Dropped,
{
}

/// A recognized control frame is inert: inserting it anywhere in a payload
/// sequence changes neither the fragments nor the outcome — it yields no
/// fragment, no error, and no change to accumulated content.
pub proof fn lemma_dropped_frame_inert(ps: Seq<Seq<u8>>, i: int, p: Seq<u8>)
    requires
        0 <= i <= ps.len(),
        classify_frame(p) is Dropped,
    ensures
        frame_chunks(ps.insert(i, p)) == frame_chunks(ps),
        frame_outcome(ps.insert(i, p)) == frame_outcome(ps),
    decreases i,
{
    if i == 0 {
        assert(ps.insert(0, p)[0] == p);
        assert(ps.insert(0, p).drop_first() =~= ps);
    } else {
        assert(ps.insert(i, p)[0] == ps[0]);
        assert(ps.insert(i, p).drop_first() =~= ps.drop_first().insert(i - 1, p));
        lemma_dropped_frame_inert(ps.drop_first(), i - 1, p);
    }
}

/// An unrecognized payload ends the session in exactly one `Errored`
/// transition: no fragment from it or any later payload is ever emitted,
/// and what was accumulated before it stands.
pub proof fn lemma_faulted_frame_stops(ps: Seq<Seq<u8>>, i: int)
    requires
        0 <= i < ps.len(),
        live_frames(ps.take(i)),
        classify_frame(ps[i]) is Faulted,
    ensures
        frame_outcome(ps) == SessionOutcome::Errored,
        frame_chunks(ps) == frame_chunks(ps.take(i)),
{
    lemma_frame_stops(ps, i);
}

/// Drive one whole session over already-decoded frame payloads, with no
/// cancellation. Each payload goes through the extractor; content fragments
/// are accumulated and notified in order; the sentinel — or the payloads
/// running out — completes the session, a fault ends it in error; the
/// persisted message carries exactly the concatenation of the fragments.
pub fn run_turn_frames(
    conversation_id: u128,
    message_id: u128,
    payloads: &Vec<Vec<u8>>,
    timestamp: i64,
) -> (r: SessionRun)
    ensures
        r.outcome == frame_outcome(crate::sse::views_of(payloads@)),
        r.notifications@.len() == 2 + frame_chunks(crate::sse::views_of(payloads@)).len(),
        r.notifications@[0] matches Notification::Started {
            conversation_id: c,
            message_id: m,
        } && c == conversation_id && m == message_id,
        r.notifications@.last() matches Notification::Finished { message_id: m } && m
            == message_id,
        forall|j: int|
            0 <= j < frame_chunks(crate::sse::views_of(payloads@)).len() ==> (
            #[trigger] r.notifications@[j + 1] matches Notification::Chunk {
                conversation_id: c,
                message_id: m,
                delta,
            } && c == conversation_id && m == message_id && delta@ == frame_chunks(
                crate::sse::views_of(payloads@),
            )[j]),
        crate::session::concat_frags(frame_chunks(crate::sse::views_of(payloads@))).len() == 0
            ==> r.persisted is None,
        crate::session::concat_frags(frame_chunks(crate::sse::views_of(payloads@))).len() > 0
            ==> (r.persisted matches Some(msg) && msg.id == message_id && msg.conversation_id
            == conversation_id && msg.role@ == "assistant"@ && msg.content@
            == crate::session::concat_frags(frame_chunks(crate::sse::views_of(payloads@)))
            && msg.timestamp == timestamp && msg.metadata is None),
{
    let ghost pv = crate::sse::views_of(payloads@);
    let mut events: Vec<(bool, SessionEvent)> = Vec::new();
    let mut idx: usize = 0;
    let mut ended = false;
    while !ended && idx < payloads.len()
        invariant
            0 <= idx <= payloads@.len(),
            pv == crate::sse::views_of(payloads@),
            pv.len() == payloads@.len(),
            !ended ==> {
                &&& live(events@)
                &&& live_frames(pv.take(idx as int))
                &&& replay_chunks(events@) == frame_chunks(pv.take(idx as int))
            },
            ended ==> {
                &&& replay_chunks(events@) == frame_chunks(pv)
                &&& replay_outcome(events@) == frame_outcome(pv)
            },
        decreases payloads@.len() - idx,
    {
        let ghost before = events@;
        let ghost p = pv[idx as int];
        proof {
            assert(payloads@[idx as int]@ == pv[idx as int]);
        }
        match extract_delta(payloads[idx].as_slice()) {
            None => {
                proof {
                    assert(classify_frame(p) is Dropped);
                    lemma_frame_push(pv.take(idx as int), p);
                    assert(pv.take(idx as int).push(p) =~= pv.take(idx as int + 1));
                    lemma_live_frames_extend(pv, idx as int);
                }
            },
            Some(ev) => {
                let is_content = matches!(ev, DeltaEvent::Content(_));
                let ghost e = (false, SessionEvent::Delta(ev));
                events.push((false, SessionEvent::Delta(ev)));
                proof {
                    crate::session::lemma_replay_live_push(before, e);
                }
                if is_content {
                    proof {
                        lemma_frame_push(pv.take(idx as int), p);
                        assert(pv.take(idx as int).push(p) =~= pv.take(idx as int + 1));
                        lemma_live_frames_extend(pv, idx as int);
                        assert(live(events@)) by {
                            assert forall|j: int|
                                0 <= j < events@.len() implies !(#[trigger] events@[j]).0 && (
                            events@[j].1 matches SessionEvent::Delta(DeltaEvent::Content(_))) by {
                                if j < before.len() {
                                    assert(events@[j] == before[j]);
                                } else {
                                    assert(events@[j] == e);
                                }
                            }
                        }
                    }
                } else {
                    ended = true;
                    proof {
                        assert(events@.take(before.len() as int) =~= before);
                        assert(events@[before.len() as int] == e);
                        crate::session::lemma_replay_stops(events@, before.len() as int);
                        lemma_frame_stops(pv, idx as int);
                    }
                }
            },
        }
        idx = idx + 1;
    }
    if !ended {
        proof {
            assert(pv.take(idx as int) =~= pv);
            crate::session::lemma_replay_all_live(events@);
            lemma_frame_all_live(pv);
        }
    }
    run_session(conversation_id, message_id, events, timestamp)
}

proof fn lemma_live_frames_extend(pv: Seq<Seq<u8>>, i: int)
    requires
        0 <= i < pv.len(),
        live_frames(pv.take(i)),
        classify_frame(pv[i]) is Fragment || classify_frame(pv[i]) is Dropped,
    ensures
        live_frames(pv.take(i + 1)),
{
    assert forall|j: int|
        0 <= j < i + 1 implies ((#[trigger] classify_frame(pv.take(i + 1)[j])) is Fragment
        || classify_frame(pv.take(i + 1)[j]) is Dropped) by {
        if j < i {
            assert(pv.take(i + 1)[j] == pv.take(i)[j]);
        } else {
            assert(pv.take(i + 1)[j] == pv[i]);
        }
    }
}

} // verus!
