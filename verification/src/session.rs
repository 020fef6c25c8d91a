//! Agent sessions: their states, the events a run produces, and the run
//! tracker that numbers those events and ends each run exactly once.

use vstd::prelude::*;
use crate::text::{copy_string, views_of};
use crate::decimal::{decimal, u64_decimal};

verus! {

/// One step of an agent's plan.
#[derive(Debug, Clone, PartialEq, Eq)]
pub struct PlanEntry {
    pub content: String,
    pub status: String,
    pub priority: String,
}

/// The texts of a plan entry.
pub open spec fn entry_view(e: PlanEntry) -> (Seq<char>, Seq<char>, Seq<char>) {
    (e.content@, e.status@, e.priority@)
}

/// The texts of a plan.
pub open spec fn plan_view(entries: Seq<PlanEntry>) -> Seq<(Seq<char>, Seq<char>, Seq<char>)> {
    entries.map_values(|e: PlanEntry| entry_view(e))
}

/// What happened in an agent run.
#[derive(Debug, Clone, PartialEq, Eq)]
pub enum AgentEventPayload {
    TextDelta { text: String },
    PlanUpdated { entries: Vec<PlanEntry> },
    ToolStarted { tool_call_id: String, title: String },
    ToolFinished { tool_call_id: String, status: String },
    UsageUpdated { used: u64, size: u64 },
    PermissionRequested { tool_call_id: String, title: Option<String>, options: Vec<String> },
    Completed { stop_reason: String },
    Cancelled,
    Failed { code: String, message: String },
}

/// A payload that ends its run.
pub open spec fn ends_run(p: AgentEventPayload) -> bool {
    p is Completed || p is Cancelled || p is Failed
}

impl AgentEventPayload {
    /// Whether this payload ends its run.
    pub fn is_terminal(&self) -> (r: bool)
        ensures
            r == ends_run(*self),
    {
        match self {
            AgentEventPayload::Completed { .. } => true,
            AgentEventPayload::Cancelled => true,
            AgentEventPayload::Failed { .. } => true,
            _ => false,
        }
    }
}

/// An event of a run, numbered from 1 within the run.
#[derive(Debug, Clone, PartialEq, Eq)]
pub struct AgentEvent {
    pub session_id: String,
    pub run_id: String,
    pub request_id: String,
    pub sequence: u64,
    pub timestamp_ms: u64,
    pub payload: AgentEventPayload,
}

/// Where a session stands.
#[derive(Debug, Clone, Copy, PartialEq, Eq, Structural)]
pub enum SessionState {
    Starting,
    Ready,
    Running,
    Completed,
    Cancelled,
    Failed,
}

/// What a client sees of a session.
#[derive(Debug, Clone, PartialEq, Eq)]
pub struct SessionDescriptor {
    pub id: String,
    pub agent_id: String,
    pub acp_session_id: String,
    pub process_id: u32,
    pub cwd: String,
    pub state: SessionState,
}


/// The run a session is working on, whose events the tracker numbers.
#[derive(Debug, Clone, PartialEq, Eq)]
pub struct ActiveRun {
    pub run_id: String,
    pub request_id: String,
}

/// Numbers the events of a session's current run. Events come only while a
/// run is active; the event that ends a run also clears it.
#[derive(Debug)]
pub struct RunTracker {
    pub active: Option<ActiveRun>,
    pub sequence: u64,
}

/// The event the tracker `t` makes of `payload`, if a run is active.
pub open spec fn event_for(
    t: RunTracker,
    session_id: String,
    timestamp_ms: u64,
    payload: AgentEventPayload,
) -> Option<AgentEvent> {
    match t.active {
        Some(run) => Some(
            AgentEvent {
                session_id,
                run_id: run.run_id,
                request_id: run.request_id,
                sequence: (t.sequence + 1) as u64,
                timestamp_ms,
                payload,
            },
        ),
        None => None,
    }
}

/// The tracker after it numbers one event.
pub open spec fn counted(t: RunTracker) -> RunTracker {
    match t.active {
        Some(_) => RunTracker { active: t.active, sequence: (t.sequence + 1) as u64 },
        None => t,
    }
}

impl RunTracker {
    /// A tracker with no active run.
    pub fn new() -> (r: Self)
        ensures
            r.active is None,
            r.sequence == 0,
    {
        RunTracker { active: None, sequence: 0 }
    }

    /// Starts numbering the events of a new run from 1.
    pub fn begin(&mut self, run_id: String, request_id: String)
        ensures
            final(self).active == Some(ActiveRun { run_id, request_id }),
            final(self).sequence == 0,
    {
        self.active = Some(ActiveRun { run_id, request_id });
        self.sequence = 0;
    }

    /// Turns `payload` into the next event of the active run; nothing when
    /// no run is active.
    pub fn emit_active(&mut self, session_id: &str, timestamp_ms: u64, payload: AgentEventPayload) -> (r:
        Option<AgentEvent>)
        requires
            old(self).sequence < u64::MAX,
        ensures
            match r {
                Some(e) => old(self).active is Some && e.session_id@ == session_id@ && e
                    == event_for(*old(self), e.session_id, timestamp_ms, payload).unwrap(),
                None => old(self).active is None,
            },
            *final(self) == counted(*old(self)),
    {
        match &self.active {
            Some(run) => {
                let event = AgentEvent {
                    session_id: crate::text::owned(session_id),
                    run_id: copy_string(&run.run_id),
                    request_id: copy_string(&run.request_id),
                    sequence: self.sequence + 1,
                    timestamp_ms,
                    payload,
                };
                self.sequence = self.sequence + 1;
                Some(event)
            },
            None => None,
        }
    }

    /// Ends the active run; later events are dropped until the next run.
    pub fn clear_active(&mut self)
        ensures
            final(self).active is None,
            final(self).sequence == old(self).sequence,
    {
        self.active = None;
    }

    /// Emits the event that ends the active run, then clears it.
    pub fn finish(&mut self, session_id: &str, timestamp_ms: u64, payload: AgentEventPayload) -> (r:
        Option<AgentEvent>)
        requires
            old(self).sequence < u64::MAX,
        ensures
            match r {
                Some(e) => old(self).active is Some && e.session_id@ == session_id@ && e
                    == event_for(*old(self), e.session_id, timestamp_ms, payload).unwrap(),
                None => old(self).active is None,
            },
            final(self).active is None,
            final(self).sequence == counted(*old(self)).sequence,
    {
        let r = self.emit_active(session_id, timestamp_ms, payload);
        self.clear_active();
        r
    }
}

/// How an ACP prompt ended, as the session sees it.
#[derive(Debug, Clone, PartialEq, Eq)]
pub enum PromptResult {
    /// The agent answered with this stop reason.
    Stopped(String),
    /// The agent answered with an error.
    Error(String),
    /// The answer never arrived.
    Lost,
}

/// The payload that ends a run whose prompt ended with `result`: the stop
/// reason `Cancelled` cancels it, any other completes it; an error or a lost
/// answer fails it.
pub fn prompt_outcome(result: PromptResult) -> (r: AgentEventPayload)
    ensures
        match result {
            PromptResult::Stopped(reason) => if reason@ == "Cancelled"@ {
                r is Cancelled
            } else {
                r == AgentEventPayload::Completed { stop_reason: reason }
            },
            PromptResult::Error(message) => r matches AgentEventPayload::Failed { code, message: m }
                && code@ == "prompt_failed"@ && m == message,
            PromptResult::Lost => r matches AgentEventPayload::Failed { code, message }
                && code@ == "prompt_response_lost"@ && message@
                == "ACP prompt response channel closed"@,
        },
        ends_run(r),
{
    match result {
        PromptResult::Stopped(reason) => {
            if crate::text::str_eq(reason.as_str(), "Cancelled") {
                AgentEventPayload::Cancelled
            } else {
                AgentEventPayload::Completed { stop_reason: reason }
            }
        },
        PromptResult::Error(message) => AgentEventPayload::Failed {
            code: crate::text::owned("prompt_failed"),
            message,
        },
        PromptResult::Lost => AgentEventPayload::Failed {
            code: crate::text::owned("prompt_response_lost"),
            message: crate::text::owned("ACP prompt response channel closed"),
        },
    }
}

/// The state a session is left in by a prompt that ended with `result`:
/// cancelled for the stop reason `Cancelled`, completed for any other,
/// failed for an error or a lost answer.
pub open spec fn result_state(result: PromptResult) -> SessionState {
    match result {
        PromptResult::Stopped(reason) => if reason@ == "Cancelled"@ {
            SessionState::Cancelled
        } else {
            SessionState::Completed
        },
        _ => SessionState::Failed,
    }
}

/// The state a session is left in by the payload that ended its run.
pub open spec fn state_after_spec(p: AgentEventPayload) -> SessionState {
    match p {
        AgentEventPayload::Cancelled => SessionState::Cancelled,
        AgentEventPayload::Failed { .. } => SessionState::Failed,
        _ => SessionState::Completed,
    }
}

/// The state a session is left in by the payload that ended its run.
pub fn state_after(payload: &AgentEventPayload) -> (r: SessionState)
    ensures
        r == state_after_spec(*payload),
{
    match payload {
        AgentEventPayload::Cancelled => SessionState::Cancelled,
        AgentEventPayload::Failed { .. } => SessionState::Failed,
        _ => SessionState::Completed,
    }
}


/// One thing that happens to a run tracker.
pub enum RunStep {
    /// A run starts.
    Begin(ActiveRun),
    /// The run produces a payload at a time.
    Emit(u64, AgentEventPayload),
    /// The run ends with a payload at a time.
    Finish(u64, AgentEventPayload),
}

/// The tracker after one step.
pub open spec fn tracker_after_step(t: RunTracker, step: RunStep) -> RunTracker {
    match step {
        RunStep::Begin(run) => RunTracker { active: Some(run), sequence: 0 },
        RunStep::Emit(_, _) => counted(t),
        RunStep::Finish(_, _) => RunTracker { active: None, sequence: counted(t).sequence },
    }
}

/// The event one step produces.
pub open spec fn step_event(t: RunTracker, step: RunStep, session_id: String) -> Option<AgentEvent> {
    match step {
        RunStep::Begin(_) => None,
        RunStep::Emit(ts, p) => event_for(t, session_id, ts, p),
        RunStep::Finish(ts, p) => event_for(t, session_id, ts, p),
    }
}

/// The tracker after a series of steps.
pub open spec fn tracker_after(t: RunTracker, steps: Seq<RunStep>) -> RunTracker
    decreases steps.len(),
{
    if steps.len() == 0 {
        t
    } else {
        tracker_after(tracker_after_step(t, steps[0]), steps.drop_first())
    }
}

/// The events a series of steps produces, in order.
pub open spec fn run_events(t: RunTracker, steps: Seq<RunStep>, session_id: String) -> Seq<
    AgentEvent,
>
    decreases steps.len(),
{
    if steps.len() == 0 {
        Seq::empty()
    } else {
        let rest = run_events(tracker_after_step(t, steps[0]), steps.drop_first(), session_id);
        match step_event(t, steps[0], session_id) {
            Some(e) => seq![e] + rest,
            None => rest,
        }
    }
}

/// Emit steps for timed payloads.
pub open spec fn emit_steps(emits: Seq<(u64, AgentEventPayload)>) -> Seq<RunStep> {
    emits.map_values(|e: (u64, AgentEventPayload)| RunStep::Emit(e.0, e.1))
}

proof fn lemma_run_events_append(t: RunTracker, a: Seq<RunStep>, b: Seq<RunStep>, sid: String)
    ensures
        run_events(t, a + b, sid) == run_events(t, a, sid) + run_events(tracker_after(t, a), b, sid),
        tracker_after(t, a + b) == tracker_after(tracker_after(t, a), b),
    decreases a.len(),
{
    if a.len() == 0 {
        assert(a + b =~= b);
        assert(run_events(t, a, sid) =~= Seq::<AgentEvent>::empty());
        assert(Seq::<AgentEvent>::empty() + run_events(t, b, sid) =~= run_events(t, b, sid));
    } else {
        assert((a + b)[0] == a[0]);
        assert((a + b).drop_first() =~= a.drop_first() + b);
        lemma_run_events_append(tracker_after_step(t, a[0]), a.drop_first(), b, sid);
        let rest_a = run_events(tracker_after_step(t, a[0]), a.drop_first(), sid);
        let rest_b = run_events(tracker_after(t, a), b, sid);
        match step_event(t, a[0], sid) {
            Some(e) => {
                assert(seq![e] + (rest_a + rest_b) =~= (seq![e] + rest_a) + rest_b);
            },
            None => {},
        }
    }
}

proof fn lemma_inactive_stays_quiet(t: RunTracker, steps: Seq<RunStep>, sid: String)
    requires
        t.active is None,
        forall|k: int| 0 <= k < steps.len() ==> !(#[trigger] steps[k] is Begin),
    ensures
        run_events(t, steps, sid) == Seq::<AgentEvent>::empty(),
    decreases steps.len(),
{
    if steps.len() > 0 {
        assert(!(steps[0] is Begin));
        let next = tracker_after_step(t, steps[0]);
        assert(next.active is None);
        assert forall|k: int| 0 <= k < steps.drop_first().len() implies !(
        #[trigger] steps.drop_first()[k] is Begin) by {
            assert(steps.drop_first()[k] == steps[k + 1]);
        }
        lemma_inactive_stays_quiet(next, steps.drop_first(), sid);
    }
}

proof fn lemma_emits_are_numbered(
    t: RunTracker,
    emits: Seq<(u64, AgentEventPayload)>,
    sid: String,
)
    requires
        t.active is Some,
        t.sequence + emits.len() <= u64::MAX,
    ensures
        run_events(t, emit_steps(emits), sid).len() == emits.len(),
        forall|k: int|
            0 <= k < emits.len() ==> {
                let e = #[trigger] run_events(t, emit_steps(emits), sid)[k];
                &&& e.sequence == t.sequence + k + 1
                &&& e.session_id == sid
                &&& e.run_id == t.active.unwrap().run_id
                &&& e.request_id == t.active.unwrap().request_id
                &&& e.timestamp_ms == emits[k].0
                &&& e.payload == emits[k].1
            },
        tracker_after(t, emit_steps(emits)).active == t.active,
        tracker_after(t, emit_steps(emits)).sequence == t.sequence + emits.len(),
    decreases emits.len(),
{
    let steps = emit_steps(emits);
    if emits.len() > 0 {
        assert(steps[0] == RunStep::Emit(emits[0].0, emits[0].1));
        assert(steps.drop_first() =~= emit_steps(emits.drop_first()));
        let next = tracker_after_step(t, steps[0]);
        lemma_emits_are_numbered(next, emits.drop_first(), sid);
        let rest = run_events(next, steps.drop_first(), sid);
        let e = step_event(t, steps[0], sid).unwrap();
        assert(run_events(t, steps, sid) == seq![e] + rest);
        assert forall|k: int| 0 <= k < emits.len() implies {
            let x = #[trigger] run_events(t, emit_steps(emits), sid)[k];
            &&& x.sequence == t.sequence + k + 1
            &&& x.session_id == sid
            &&& x.run_id == t.active.unwrap().run_id
            &&& x.request_id == t.active.unwrap().request_id
            &&& x.timestamp_ms == emits[k].0
            &&& x.payload == emits[k].1
        } by {
            if k > 0 {
                assert(run_events(t, steps, sid)[k] == rest[k - 1]);
                assert(emits.drop_first()[k - 1] == emits[k]);
            }
        }
    } else {
        assert(steps =~= Seq::<RunStep>::empty());
    }
}

/// Every run numbers its events 1, 2, 3, ... in the order they happen, and
/// ends exactly once: when the payloads a run produces before its end are
/// not terminal, its events are those payloads and then the ending one, the
/// last event is the only terminal one, and nothing is produced after it
/// until another run begins.
pub proof fn law_a_run_ends_exactly_once(
    t: RunTracker,
    run: ActiveRun,
    session_id: String,
    emits: Seq<(u64, AgentEventPayload)>,
    end_ms: u64,
    end: AgentEventPayload,
    later: Seq<RunStep>,
)
    requires
        forall|k: int| 0 <= k < emits.len() ==> !ends_run(#[trigger] emits[k].1),
        ends_run(end),
        forall|k: int| 0 <= k < later.len() ==> !(#[trigger] later[k] is Begin),
        emits.len() < u64::MAX,
    ensures
        ({
            let steps = seq![RunStep::Begin(run)] + emit_steps(emits) + seq![
                RunStep::Finish(end_ms, end),
            ] + later;
            let events = run_events(t, steps, session_id);
            &&& events.len() == emits.len() + 1
            &&& forall|k: int|
                0 <= k < events.len() ==> (#[trigger] events[k]).sequence == k + 1
                    && events[k].run_id == run.run_id && events[k].session_id == session_id
            &&& forall|k: int| 0 <= k < emits.len() ==> (#[trigger] events[k]).payload == emits[k].1
            &&& events[emits.len() as int].payload == end
            &&& forall|k: int| 0 <= k < events.len() ==> (ends_run((#[trigger] events[k]).payload)
                <==> k == emits.len())
        }),
{
    let begin = seq![RunStep::Begin(run)];
    let middle = emit_steps(emits);
    let fin = seq![RunStep::Finish(end_ms, end)];
    let steps = begin + middle + fin + later;
    let t0 = tracker_after(t, begin);
    assert(begin.drop_first() =~= Seq::<RunStep>::empty());
    assert(begin[0] == RunStep::Begin(run));
    let started = RunTracker { active: Some(run), sequence: 0 };
    assert(tracker_after_step(t, begin[0]) == started);
    assert(tracker_after(started, Seq::<RunStep>::empty()) == started);
    assert(t0 == started);
    assert(run_events(started, Seq::<RunStep>::empty(), session_id) =~= Seq::<AgentEvent>::empty());
    assert(run_events(t, begin, session_id) =~= Seq::<AgentEvent>::empty());
    lemma_emits_are_numbered(t0, emits, session_id);
    let t1 = tracker_after(t0, middle);
    let t2 = tracker_after(t1, fin);
    assert(fin.drop_first() =~= Seq::<RunStep>::empty());
    assert(fin[0] == RunStep::Finish(end_ms, end));
    let end_event = event_for(t1, session_id, end_ms, end).unwrap();
    let t1_next = tracker_after_step(t1, fin[0]);
    assert(tracker_after(t1_next, Seq::<RunStep>::empty()) == t1_next);
    assert(run_events(t1_next, Seq::<RunStep>::empty(), session_id) =~= Seq::<AgentEvent>::empty());
    assert(run_events(t1, fin, session_id) =~= seq![end_event]);
    assert(t2.active is None);
    lemma_inactive_stays_quiet(t2, later, session_id);
    lemma_run_events_append(t, begin, middle, session_id);
    lemma_run_events_append(t, begin + middle, fin, session_id);
    lemma_run_events_append(t, begin + middle + fin, later, session_id);
    let mids = run_events(t0, middle, session_id);
    let events = run_events(t, steps, session_id);
    assert(events =~= mids + seq![end_event]);
}


// ---------------------------------------------------------------------------
// The prompt loop of a session
// ---------------------------------------------------------------------------

/// The decisions of a session's prompt loop: at most one prompt runs at a
/// time, a cancellation reaches only the run it names, and every run ends
/// with exactly one terminal event.
#[derive(Debug)]
pub struct PromptLoop {
    pub tracker: RunTracker,
    pub running: Option<String>,
}

/// The loop is consistent: a run is tracked exactly while one is running.
pub open spec fn loop_wf(l: PromptLoop) -> bool {
    &&& (l.running is Some <==> l.tracker.active is Some)
    &&& (l.running matches Some(id) ==> l.tracker.active.unwrap().run_id == id)
}

impl PromptLoop {
    /// A loop with no prompt running.
    pub fn new() -> (r: Self)
        ensures
            loop_wf(r),
            r.running is None,
            r.tracker.sequence == 0,
    {
        PromptLoop { tracker: RunTracker::new(), running: None }
    }

    /// A prompt arrives: it starts run `run_id` unless one is already
    /// running, which refuses it and changes nothing.
    pub fn start(&mut self, run_id: String, request_id: String) -> (r: Result<(), String>)
        requires
            loop_wf(*old(self)),
        ensures
            loop_wf(*final(self)),
            old(self).running is Some ==> (r matches Err(m) && m@ == "A prompt is already running"@
                && *final(self) == *old(self)),
            old(self).running is None ==> (r is Ok && final(self).running == Some(run_id)
                && final(self).tracker.active == Some(ActiveRun { run_id, request_id })
                && final(self).tracker.sequence == 0),
    {
        if self.running.is_some() {
            return Err(crate::text::owned("A prompt is already running"));
        }
        let ghost id = run_id;
        self.running = Some(copy_string(&run_id));
        self.tracker.begin(run_id, request_id);
        Ok(())
    }

    /// Whether a cancellation for `run_id` reaches the running prompt.
    pub fn cancels(&self, run_id: &str) -> (r: bool)
        ensures
            r == (self.running matches Some(id) && id@ == run_id@),
    {
        match &self.running {
            Some(id) => crate::text::str_eq(id.as_str(), run_id),
            None => false,
        }
    }

    /// The agent reported an update of the running prompt.
    pub fn update(&mut self, session_id: &str, timestamp_ms: u64, payload: AgentEventPayload) -> (r:
        Option<AgentEvent>)
        requires
            loop_wf(*old(self)),
            old(self).tracker.sequence < u64::MAX,
        ensures
            loop_wf(*final(self)),
            final(self).running == old(self).running,
            final(self).tracker == counted(old(self).tracker),
            match r {
                Some(e) => old(self).running is Some && e.session_id@ == session_id@ && e
                    == event_for(old(self).tracker, e.session_id, timestamp_ms, payload).unwrap(),
                None => old(self).running is None,
            },
    {
        self.tracker.emit_active(session_id, timestamp_ms, payload)
    }

    /// The prompt ended with `result`: the running prompt's terminal event,
    /// and the state the session is left in. Nothing runs afterwards; when
    /// nothing was running there is no event and nothing changes.
    pub fn end(&mut self, session_id: &str, timestamp_ms: u64, result: PromptResult) -> (r: (
        Option<AgentEvent>,
        SessionState,
    ))
        requires
            loop_wf(*old(self)),
            old(self).tracker.sequence < u64::MAX,
        ensures
            loop_wf(*final(self)),
            final(self).running is None,
            r.1 == result_state(result),
            old(self).running is Some ==> (r.0 matches Some(e) && ends_run(e.payload) && e.sequence
                == old(self).tracker.sequence + 1 && e.run_id == old(self).tracker.active.unwrap().run_id
                && e.session_id@ == session_id@ && r.1 == state_after_spec(e.payload)),
            old(self).running is None ==> r.0 is None && *final(self) == *old(self),
    {
        let payload = prompt_outcome(result);
        let state = state_after(&payload);
        let e = self.tracker.finish(session_id, timestamp_ms, payload);
        self.running = None;
        (e, state)
    }

    /// The running prompt took too long: it fails with `prompt_timeout` and
    /// `message`, and the session is left failed. When nothing was running
    /// there is no event and nothing changes.
    pub fn time_out(&mut self, session_id: &str, timestamp_ms: u64, message: String) -> (r: Option<
        AgentEvent,
    >)
        requires
            loop_wf(*old(self)),
            old(self).tracker.sequence < u64::MAX,
        ensures
            loop_wf(*final(self)),
            final(self).running is None,
            old(self).running is Some ==> (r matches Some(e) && e.sequence == old(self).tracker.sequence
                + 1 && e.run_id == old(self).tracker.active.unwrap().run_id && e.session_id@
                == session_id@ && (e.payload matches AgentEventPayload::Failed { code, message: m }
                && code@ == "prompt_timeout"@ && m == message)),
            old(self).running is None ==> r is None && *final(self) == *old(self),
    {
        let payload = AgentEventPayload::Failed {
            code: crate::text::owned("prompt_timeout"),
            message,
        };
        let e = self.tracker.finish(session_id, timestamp_ms, payload);
        self.running = None;
        e
    }
}

/// A session ID: `session-<pid>-<n>`.
pub fn session_id(process_id: u32, sequence: u64) -> (r: String)
    ensures
        r@ == "session-"@ + decimal(process_id as nat) + "-"@ + decimal(sequence as nat),
{
    let mut s = crate::text::owned("session-");
    s.append(crate::text::string_of(&u64_decimal(process_id as u64)).as_str());
    s.append("-");
    s.append(crate::text::string_of(&u64_decimal(sequence)).as_str());
    s
}

/// A run ID: `run-<pid>-<n>`.
pub fn run_id(process_id: u32, sequence: u64) -> (r: String)
    ensures
        r@ == "run-"@ + decimal(process_id as nat) + "-"@ + decimal(sequence as nat),
{
    let mut s = crate::text::owned("run-");
    s.append(crate::text::string_of(&u64_decimal(process_id as u64)).as_str());
    s.append("-");
    s.append(crate::text::string_of(&u64_decimal(sequence)).as_str());
    s
}

/// Why an agent process ended a session: its exit status, and what it last
/// wrote to standard error when it wrote anything.
pub fn exit_message(status: &str, stderr: &str) -> (r: String)
    ensures
        stderr@.len() == 0 ==> r@ == "ACP process exited with "@ + status@,
        stderr@.len() > 0 ==> r@ == "ACP process exited with "@ + status@ + ": "@ + stderr@,
{
    let mut m = crate::text::owned("ACP process exited with ");
    m.append(status);
    if stderr.unicode_len() > 0 {
        m.append(": ");
        m.append(stderr);
    }
    m
}

/// The most of an agent's standard error that is kept.
pub const STDERR_LIMIT: usize = 65536;

/// Appends `chunk` to the kept standard error, then drops the oldest bytes
/// beyond the limit.
pub fn keep_stderr_tail(kept: &mut Vec<u8>, chunk: &Vec<u8>)
    requires
        old(kept)@.len() <= STDERR_LIMIT,
    ensures
        final(kept)@ == if old(kept)@.len() + chunk@.len() > STDERR_LIMIT {
            (old(kept)@ + chunk@).subrange(
                old(kept)@.len() + chunk@.len() - STDERR_LIMIT,
                (old(kept)@.len() + chunk@.len()) as int,
            )
        } else {
            old(kept)@ + chunk@
        },
{
    let ghost all = old(kept)@ + chunk@;
    let mut i: usize = 0;
    while i < chunk.len()
        invariant
            i <= chunk.len(),
            kept@ == old(kept)@ + chunk@.subrange(0, i as int),
            old(kept)@.len() <= STDERR_LIMIT,
        decreases chunk.len() - i,
    {
        kept.push(chunk[i]);
        assert(chunk@.subrange(0, i + 1) =~= chunk@.subrange(0, i as int).push(chunk@[i as int]));
        i = i + 1;
    }
    assert(chunk@.subrange(0, chunk.len() as int) =~= chunk@);
    assert(kept@ == all);
    if kept.len() > STDERR_LIMIT {
        let drop = kept.len() - STDERR_LIMIT;
        let mut tail: Vec<u8> = Vec::new();
        let mut j: usize = drop;
        while j < kept.len()
            invariant
                drop <= j <= kept.len(),
                tail@ == kept@.subrange(drop as int, j as int),
            decreases kept.len() - j,
        {
            tail.push(kept[j]);
            assert(kept@.subrange(drop as int, j + 1) =~= kept@.subrange(drop as int, j as int).push(
                kept@[j as int],
            ));
            j = j + 1;
        }
        *kept = tail;
    }
}

/// The kept standard error as text: decoded with replacement characters
/// and trimmed.
pub fn stderr_text(kept: &Vec<u8>) -> (r: String)
    ensures
        r@ == crate::text::trim(crate::text::utf8_lossy(kept@)),
{
    let text = crate::text::decode_lossy(kept.as_slice());
    let trimmed = crate::text::chars_trim(&crate::text::chars_of(text.as_str()));
    crate::text::string_of(&trimmed)
}

} // verus!
