use vstd::prelude::*;

use crate::delta::DeltaEvent;
use crate::models::Message;

verus! {

/// Terminal outcome of a streaming session, `Pending` while it still runs.
#[derive(Clone, Copy, PartialEq, Eq, Structural, Debug)]
pub enum SessionOutcome {
    Pending,
    Completed,
    Cancelled,
    Errored,
}

/// One observation the driver hands the controller: a delta produced by the
/// extractor, the upstream stream ending without the sentinel, or a framing
/// or transport fault on the stream itself.
#[derive(Debug)]
pub enum SessionEvent {
    Delta(DeltaEvent),
    Closed,
    Failed,
}

/// What the driver must do after a step: emit an incremental notification
/// carrying the fragment and keep consuming, or stop consuming and run
/// finalization.
#[derive(Debug)]
pub enum StepAction {
    Emit(String),
    Finalize,
}

/// A lifecycle notification, in the order the driver must deliver them.
#[derive(Debug)]
pub enum Notification {
    Started { conversation_id: u128, message_id: u128 },
    Chunk { conversation_id: u128, message_id: u128, delta: String },
    Finished { message_id: u128 },
}

/// The fragments of a sequence, concatenated in order.
pub open spec fn concat_frags(frags: Seq<Seq<char>>) -> Seq<char>
    decreases frags.len(),
{
    if frags.len() == 0 {
        Seq::empty()
    } else {
        concat_frags(frags.drop_last()) + frags.last()
    }
}

pub proof fn lemma_concat_push(frags: Seq<Seq<char>>, x: Seq<char>)
    ensures
        concat_frags(frags.push(x)) == concat_frags(frags) + x,
{
    assert(frags.push(x).drop_last() =~= frags);
    assert(frags.push(x).last() == x);
}

/// The live, in-memory state of one streaming turn: the id allocated for the
/// assistant message, the accumulated content, and the outcome.
pub struct StreamingSession {
    pub conversation_id: u128,
    pub message_id: u128,
    pub content: String,
    pub any_content: bool,
    pub outcome: SessionOutcome,
    pub emitted: Ghost<Seq<Seq<char>>>,
}

impl StreamingSession {
    /// The accumulated content.
    pub open spec fn content_view(&self) -> Seq<char> {
        self.content@
    }

    /// Whether any fragment, even an empty one, has been received.
    pub open spec fn any_content(&self) -> bool {
        self.any_content
    }

    pub open spec fn outcome_of(&self) -> SessionOutcome {
        self.outcome
    }

    /// The fragments handed out for emission, in order.
    pub open spec fn emitted_deltas(&self) -> Seq<Seq<char>> {
        self.emitted@
    }

    /// The content is exactly the concatenation of the emitted fragments,
    /// and a fragment has been seen exactly when one was emitted.
    pub open spec fn wf(&self) -> bool {
        &&& self.content@ == concat_frags(self.emitted@)
        &&& self.any_content <==> self.emitted@.len() > 0
    }

    /// Open a session for one turn. The driver must deliver the
    /// session-began notification before feeding any event, and abandon the
    /// session without finalization if that delivery fails.
    pub fn begin(conversation_id: u128, message_id: u128) -> (r: Self)
        ensures
            r.wf(),
            r.conversation_id == conversation_id,
            r.message_id == message_id,
            r.content_view() == Seq::<char>::empty(),
            r.emitted_deltas() == Seq::<Seq<char>>::empty(),
            r.outcome_of() is Pending,
    {
        StreamingSession {
            conversation_id,
            message_id,
            content: String::new(),
            any_content: false,
            outcome: SessionOutcome::Pending,
            emitted: Ghost(Seq::empty()),
        }
    }

    /// Consume one observation. `cancel_fired` is the answer the
    /// cancellation registry gave for this session's message id, asked
    /// before the event is looked at: when it fired, the session is
    /// cancelled no matter what the event carried, nothing is appended, and
    /// no fragment is emitted from here on.
    pub fn step(&mut self, cancel_fired: bool, ev: SessionEvent) -> (r: StepAction)
        requires
            old(self).wf(),
            old(self).outcome_of() is Pending,
        ensures
            final(self).wf(),
            final(self).conversation_id == old(self).conversation_id,
            final(self).message_id == old(self).message_id,
            cancel_fired ==> {
                &&& final(self).outcome_of() is Cancelled
                &&& final(self).content_view() == old(self).content_view()
                &&& final(self).emitted_deltas() == old(self).emitted_deltas()
                &&& r is Finalize
            },
            !cancel_fired ==> match ev {
                SessionEvent::Delta(DeltaEvent::Content(s)) => {
                    &&& final(self).outcome_of() is Pending
                    &&& final(self).content_view() == old(self).content_view() + s@
                    &&& final(self).emitted_deltas() == old(self).emitted_deltas().push(s@)
                    &&& r matches StepAction::Emit(d) && d@ == s@
                },
                SessionEvent::Delta(DeltaEvent::End) => {
                    &&& final(self).outcome_of() is Completed
                    &&& final(self).content_view() == old(self).content_view()
                    &&& final(self).emitted_deltas() == old(self).emitted_deltas()
                    &&& r is Finalize
                },
                SessionEvent::Delta(DeltaEvent::Error(_)) => {
                    &&& final(self).outcome_of() is Errored
                    &&& final(self).content_view() == old(self).content_view()
                    &&& final(self).emitted_deltas() == old(self).emitted_deltas()
                    &&& r is Finalize
                },
                SessionEvent::Closed => {
                    &&& final(self).outcome_of() is Completed
                    &&& final(self).content_view() == old(self).content_view()
                    &&& final(self).emitted_deltas() == old(self).emitted_deltas()
                    &&& r is Finalize
                },
                SessionEvent::Failed => {
                    &&& final(self).outcome_of() is Errored
                    &&& final(self).content_view() == old(self).content_view()
                    &&& final(self).emitted_deltas() == old(self).emitted_deltas()
                    &&& r is Finalize
                },
            },
    {
        if cancel_fired {
            self.outcome = SessionOutcome::Cancelled;
            return StepAction::Finalize;
        }
        match ev {
            SessionEvent::Delta(DeltaEvent::Content(s)) => {
                self.content.append(s.as_str());
                self.any_content = true;
                proof {
                    self.emitted@ = self.emitted@.push(s@);
                    lemma_concat_push(old(self).emitted@, s@);
                }
                StepAction::Emit(s)
            },
            SessionEvent::Delta(DeltaEvent::End) => {
                self.outcome = SessionOutcome::Completed;
                StepAction::Finalize
            },
            SessionEvent::Delta(DeltaEvent::Error(_)) => {
                self.outcome = SessionOutcome::Errored;
                StepAction::Finalize
            },
            SessionEvent::Closed => {
                self.outcome = SessionOutcome::Completed;
                StepAction::Finalize
            },
            SessionEvent::Failed => {
                self.outcome = SessionOutcome::Errored;
                StepAction::Finalize
            },
        }
    }

    /// The message to persist when the session has reached a terminal
    /// outcome: the accumulated content under the session's message id, or
    /// nothing when the buffer is empty — an empty assistant turn carries no
    /// value. Every terminal outcome converges here, and the driver must
    /// deliver the finished notification afterwards whether or not
    /// persistence succeeded.
    pub fn finalize(&self, timestamp: i64) -> (r: Option<Message>)
        requires
            self.wf(),
            !(self.outcome_of() is Pending),
        ensures
            self.content_view().len() == 0 ==> r is None,
            self.content_view().len() > 0 ==> (r matches Some(msg) && msg.id == self.message_id
                && msg.conversation_id == self.conversation_id && msg.role@ == "assistant"@
                && msg.content@ == self.content_view() && msg.timestamp == timestamp
                && msg.metadata is None),
    {
        if self.content.as_str().is_empty() {
            None
        } else {
            Some(
                Message {
                    id: self.message_id,
                    conversation_id: self.conversation_id,
                    role: String::from_str("assistant"),
                    content: self.content.clone(),
                    timestamp,
                    metadata: None,
                },
            )
        }
    }

    /// The accumulated content, for observation.
    pub fn content_text(&self) -> (r: &String)
        ensures
            r@ == self.content_view(),
    {
        &self.content
    }
}

/// A prefix on which a session keeps running: no cancellation fired and
/// every observation was a content fragment.
pub open spec fn live(events: Seq<(bool, SessionEvent)>) -> bool {
    forall|j: int|
        0 <= j < events.len() ==> !(#[trigger] events[j]).0 && (events[j].1 matches
            SessionEvent::Delta(DeltaEvent::Content(_)))
}

/// The fragments a session fed these observations emits, in order: one per
/// content delta, up to but not including the first cancellation or terminal
/// observation.
pub open spec fn replay_chunks(events: Seq<(bool, SessionEvent)>) -> Seq<Seq<char>>
    decreases events.len(),
{
    if events.len() == 0 {
        Seq::empty()
    } else if events[0].0 {
        Seq::empty()
    } else {
        match events[0].1 {
            SessionEvent::Delta(DeltaEvent::Content(s)) => seq![s@] + replay_chunks(
                events.drop_first(),
            ),
            _ => Seq::empty(),
        }
    }
}

/// The terminal outcome a session fed these observations reaches; a stream
/// that runs out of observations has closed, which completes the session.
pub open spec fn replay_outcome(events: Seq<(bool, SessionEvent)>) -> SessionOutcome
    decreases events.len(),
{
    if events.len() == 0 {
        SessionOutcome::Completed
    } else if events[0].0 {
        SessionOutcome::Cancelled
    } else {
        match events[0].1 {
            SessionEvent::Delta(DeltaEvent::Content(_)) => replay_outcome(events.drop_first()),
            SessionEvent::Delta(DeltaEvent::End) => SessionOutcome::Completed,
            SessionEvent::Delta(DeltaEvent::Error(_)) => SessionOutcome::Errored,
            SessionEvent::Closed => SessionOutcome::Completed,
            SessionEvent::Failed => SessionOutcome::Errored,
        }
    }
}

pub proof fn lemma_replay_live_push(s: Seq<(bool, SessionEvent)>, e: (bool, SessionEvent))
    requires
        live(s),
    ensures
        !e.0 && (e.1 matches SessionEvent::Delta(DeltaEvent::Content(c))) ==> replay_chunks(
            s.push(e),
        ) == replay_chunks(s).push(spec_fragment(e.1)),
        e.0 || !(e.1 matches SessionEvent::Delta(DeltaEvent::Content(_))) ==> replay_chunks(
            s.push(e),
        ) == replay_chunks(s),
    decreases s.len(),
{
    if s.len() == 0 {
        match e.1 {
            SessionEvent::Delta(DeltaEvent::Content(c)) => {
                if !e.0 {
                    let tail = s.push(e).drop_first();
                    assert(tail =~= Seq::<(bool, SessionEvent)>::empty());
                    assert(replay_chunks(tail) =~= Seq::<Seq<char>>::empty());
                    assert(s.push(e)[0] == e);
                    assert(replay_chunks(s.push(e)) =~= replay_chunks(s).push(c@));
                }
            },
            _ => {},
        }
    } else {
        assert(!s[0].0);
        assert(s.push(e).drop_first() =~= s.drop_first().push(e));
        assert(live(s.drop_first())) by {
            assert forall|j: int| 0 <= j < s.drop_first().len() implies !(#[trigger] s.drop_first()[j]).0 && (s.drop_first()[j].1 matches SessionEvent::Delta(DeltaEvent::Content(_))) by {
                assert(s.drop_first()[j] == s[j + 1]);
            }
        }
        lemma_replay_live_push(s.drop_first(), e);
        match e.1 {
            SessionEvent::Delta(DeltaEvent::Content(c)) => {
                if !e.0 {
                    assert(replay_chunks(s.push(e)) =~= replay_chunks(s).push(c@));
                }
            },
            _ => {},
        }
    }
}

/// The fragment of a content observation.
pub open spec fn spec_fragment(ev: SessionEvent) -> Seq<char>
    recommends
        ev matches SessionEvent::Delta(DeltaEvent::Content(_)),
{
    match ev {
        SessionEvent::Delta(DeltaEvent::Content(s)) => s@,
        _ => Seq::empty(),
    }
}

/// The outcome a stopping observation forces.
pub open spec fn stop_outcome(e: (bool, SessionEvent)) -> SessionOutcome {
    if e.0 {
        SessionOutcome::Cancelled
    } else {
        match e.1 {
            SessionEvent::Delta(DeltaEvent::Content(_)) => SessionOutcome::Pending,
            SessionEvent::Delta(DeltaEvent::End) => SessionOutcome::Completed,
            SessionEvent::Delta(DeltaEvent::Error(_)) => SessionOutcome::Errored,
            SessionEvent::Closed => SessionOutcome::Completed,
            SessionEvent::Failed => SessionOutcome::Errored,
        }
    }
}

proof fn lemma_live_drop_first(s: Seq<(bool, SessionEvent)>, i: int)
    requires
        0 < i <= s.len(),
        live(s.take(i)),
    ensures
        !s[0].0 && (s[0].1 matches SessionEvent::Delta(DeltaEvent::Content(_))),
        live(s.drop_first().take(i - 1)),
{
    assert(s.take(i)[0] == s[0]);
    assert forall|j: int| 0 <= j < i - 1 implies !(#[trigger] s.drop_first().take(i - 1)[j]).0 && (
    s.drop_first().take(i - 1)[j].1 matches SessionEvent::Delta(DeltaEvent::Content(_))) by {
        assert(s.drop_first().take(i - 1)[j] == s.take(i)[j + 1]);
    }
}

/// Everything after the first cancellation or terminal observation is dead:
/// it adds no fragment, and the outcome is the one that observation forced.
pub proof fn lemma_replay_stops(s: Seq<(bool, SessionEvent)>, i: int)
    requires
        0 <= i < s.len(),
        live(s.take(i)),
        s[i].0 || !(s[i].1 matches SessionEvent::Delta(DeltaEvent::Content(_))),
    ensures
        replay_chunks(s) == replay_chunks(s.take(i)),
        replay_outcome(s) == stop_outcome(s[i]),
    decreases i,
{
    if i == 0 {
        assert(replay_chunks(s.take(0)) =~= Seq::<Seq<char>>::empty());
        if !s[0].0 {
            match s[0].1 {
                SessionEvent::Delta(DeltaEvent::Content(_)) => {
                    assert(false);
                },
                _ => {},
            }
        }
        assert(replay_chunks(s) =~= Seq::<Seq<char>>::empty());
    } else {
        lemma_live_drop_first(s, i);
        assert(s.drop_first()[i - 1] == s[i]);
        lemma_replay_stops(s.drop_first(), i - 1);
        assert(s.take(i).drop_first() =~= s.drop_first().take(i - 1));
        match s[0].1 {
            SessionEvent::Delta(DeltaEvent::Content(c)) => {
                assert(replay_chunks(s) == seq![c@] + replay_chunks(s.drop_first()));
                assert(replay_chunks(s.take(i)) == seq![c@] + replay_chunks(
                    s.drop_first().take(i - 1),
                ));
            },
            _ => {},
        }
    }
}

/// A run that never stops completes when its observations run out.
pub proof fn lemma_replay_all_live(s: Seq<(bool, SessionEvent)>)
    requires
        live(s),
    ensures
        replay_outcome(s) == SessionOutcome::Completed,
    decreases s.len(),
{
    if s.len() > 0 {
        assert(live(s.drop_first())) by {
            assert forall|j: int| 0 <= j < s.drop_first().len() implies !(#[trigger] s.drop_first()[j]).0 && (s.drop_first()[j].1 matches SessionEvent::Delta(DeltaEvent::Content(_))) by {
                assert(s.drop_first()[j] == s[j + 1]);
            }
        }
        lemma_replay_all_live(s.drop_first());
    }
}

/// Cancellation halts emission: when the registry fired at the
/// observation point `i` — whatever was observed there — no fragment from
/// that point on is ever emitted, and the session ends `Cancelled`. That
/// exactly one finished notification is still delivered is part of the
/// contract of `run_session`.
pub proof fn lemma_cancellation_halts(events: Seq<(bool, SessionEvent)>, i: int)
    requires
        0 <= i < events.len(),
        live(events.take(i)),
        events[i].0,
    ensures
        replay_chunks(events) == replay_chunks(events.take(i)),
        replay_outcome(events) == SessionOutcome::Cancelled,
{
    lemma_replay_stops(events, i);
}

/// The record of one whole session: the notifications in the order they
/// must be delivered, the message persisted (none when the content stayed
/// empty), and the terminal outcome.
pub struct SessionRun {
    pub notifications: Vec<Notification>,
    pub persisted: Option<Message>,
    pub outcome: SessionOutcome,
}

/// Drive one whole session over a finite sequence of observations, each
/// paired with the answer the cancellation registry gave just before it.
///
/// The session-began notification comes first; each content fragment emits
/// one incremental notification, in order; the first cancellation or
/// terminal observation stops consumption; running out of observations
/// closes the stream; and exactly one finished notification ends the run,
/// whatever the outcome. The persisted message carries exactly the
/// concatenation of the emitted fragments, and is skipped when that is
/// empty.
pub fn run_session(
    conversation_id: u128,
    message_id: u128,
    events: Vec<(bool, SessionEvent)>,
    timestamp: i64,
) -> (r: SessionRun)
    ensures
        r.outcome == replay_outcome(events@),
        r.notifications@.len() == 2 + replay_chunks(events@).len(),
        r.notifications@[0] matches Notification::Started {
            conversation_id: c,
            message_id: m,
        } && c == conversation_id && m == message_id,
        r.notifications@.last() matches Notification::Finished { message_id: m } && m
            == message_id,
        forall|j: int|
            0 <= j < replay_chunks(events@).len() ==> (#[trigger] r.notifications@[j + 1] matches
                Notification::Chunk { conversation_id: c, message_id: m, delta } && c
                == conversation_id && m == message_id && delta@ == replay_chunks(events@)[j]),
        concat_frags(replay_chunks(events@)).len() == 0 ==> r.persisted is None,
        concat_frags(replay_chunks(events@)).len() > 0 ==> (r.persisted matches Some(msg)
            && msg.id == message_id && msg.conversation_id == conversation_id && msg.role@
            == "assistant"@ && msg.content@ == concat_frags(replay_chunks(events@))
            && msg.timestamp == timestamp && msg.metadata is None),
{
    let ghost all = events@;
    let mut evs = events;
    let mut session = StreamingSession::begin(conversation_id, message_id);
    let mut notifications: Vec<Notification> = Vec::new();
    notifications.push(Notification::Started { conversation_id, message_id });
    let ghost i: int = 0;
    let mut stopped = false;
    while !stopped && evs.len() > 0
        invariant
            0 <= i <= all.len(),
            evs@ =~= all.skip(i),
            session.wf(),
            session.conversation_id == conversation_id,
            session.message_id == message_id,
            !stopped ==> {
                &&& session.outcome_of() is Pending
                &&& live(all.take(i))
                &&& session.emitted_deltas() == replay_chunks(all.take(i))
            },
            stopped ==> {
                &&& !(session.outcome_of() is Pending)
                &&& session.outcome_of() == replay_outcome(all)
                &&& session.emitted_deltas() == replay_chunks(all)
            },
            notifications@.len() == 1 + session.emitted_deltas().len(),
            notifications@[0] matches Notification::Started {
                conversation_id: c,
                message_id: m,
            } && c == conversation_id && m == message_id,
            forall|j: int|
                0 <= j < session.emitted_deltas().len() ==> (#[trigger] notifications@[j
                    + 1] matches Notification::Chunk { conversation_id: c, message_id: m, delta }
                    && c == conversation_id && m == message_id && delta@
                    == session.emitted_deltas()[j]),
        decreases evs@.len(),
    {
        let (cancel_fired, ev) = evs.remove(0);
        proof {
            assert(all.skip(i)[0] == all[i]);
            assert(evs@ =~= all.skip(i + 1)) by {
                assert(all.skip(i).drop_first() =~= all.skip(i + 1));
            }
        }
        let ghost e = all[i];
        let ghost was_content = !cancel_fired && (ev matches SessionEvent::Delta(
            DeltaEvent::Content(_),
        ));
        match session.step(cancel_fired, ev) {
            StepAction::Emit(fragment) => {
                proof {
                    lemma_replay_live_push(all.take(i), e);
                    assert(all.take(i).push(e) =~= all.take(i + 1));
                    assert(live(all.take(i + 1))) by {
                        assert forall|j: int|
                            0 <= j < i + 1 implies !(#[trigger] all.take(i + 1)[j]).0 && (all.take(
                            i + 1,
                        )[j].1 matches SessionEvent::Delta(DeltaEvent::Content(_))) by {
                            if j < i {
                                assert(all.take(i + 1)[j] == all.take(i)[j]);
                            } else {
                                assert(all.take(i + 1)[j] == e);
                            }
                        }
                    }
                }
                notifications.push(
                    Notification::Chunk {
                        conversation_id: session.conversation_id,
                        message_id: session.message_id,
                        delta: fragment,
                    },
                );
            },
            StepAction::Finalize => {
                proof {
                    lemma_replay_stops(all, i);
                }
                stopped = true;
            },
        }
        proof {
            i = i + 1;
        }
    }
    if !stopped {
        proof {
            assert(all.take(i) =~= all);
            lemma_replay_all_live(all);
        }
        let action = session.step(false, SessionEvent::Closed);
        proof {
            assert(action is Finalize);
        }
    }
    let persisted = session.finalize(timestamp);
    let ghost chunk_count = session.emitted_deltas().len();
    notifications.push(Notification::Finished { message_id: session.message_id });
    SessionRun { notifications, persisted, outcome: session.outcome }
}

} // verus!
