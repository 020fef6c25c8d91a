use vela::capture::{CaptureIntent, CaptureSource};
use vela::ipc::{
    error_response, event, parse_capture_intent, parse_capture_source, parse_workspace_provenance,
    route, started_at_or_now, stream_accepted, stream_event_json, success_response, ActiveStreams,
    Command, ContextQuery, ErrorReply, Request, StreamEvent, StreamInput, StreamRun,
};
use vela::json::JsonValue;
use vela::permission::PermissionDecision;
use vela::protocol::ProtocolVersion;
use vela::workspace::{WorkspaceError, WorkspaceProvenance};

fn s(text: &str) -> JsonValue {
    JsonValue::String(text.to_string())
}

fn obj(members: Vec<(&str, JsonValue)>) -> JsonValue {
    JsonValue::Object(members.into_iter().map(|(k, v)| (k.to_string(), v)).collect())
}

fn request(method: &str, params: JsonValue) -> Request {
    Request {
        version: ProtocolVersion { major: 1, minor: 0 },
        id: "req-1".to_string(),
        method: method.to_string(),
        params,
    }
}

fn invalid(message: &str) -> Result<Command, ErrorReply> {
    Err(ErrorReply { code: "invalid_params".to_string(), message: message.to_string() })
}

fn member<'a>(value: &'a JsonValue, key: &str) -> &'a JsonValue {
    value.get(key).unwrap()
}

fn text_of(value: &JsonValue) -> &str {
    value.as_str().unwrap().as_str()
}

#[test]
fn incompatible_major_versions_are_refused_with_both_majors() {
    let mut r = request("core.health", JsonValue::Null);
    r.version = ProtocolVersion { major: 2, minor: 0 };
    assert_eq!(
        route(&r),
        Err(ErrorReply {
            code: "incompatible_version".to_string(),
            message: "Protocol major 2 is not supported; expected 1".to_string(),
        })
    );
    r.version = ProtocolVersion { major: 1, minor: 42 };
    assert_eq!(route(&r), Ok(Command::Health));
}

#[test]
fn methods_map_to_commands_and_unknown_methods_are_named() {
    assert_eq!(route(&request("core.hello", JsonValue::Null)), Ok(Command::Hello));
    assert_eq!(route(&request("agents.refresh", JsonValue::Null)), Ok(Command::AgentsRefresh));
    assert_eq!(route(&request("workspace.rebuild", JsonValue::Null)), Ok(Command::WorkspaceRebuild));
    assert_eq!(
        route(&request("nope", JsonValue::Null)),
        Err(ErrorReply { code: "method_not_found".to_string(), message: "Unknown method: nope".to_string() })
    );
}

#[test]
fn required_parameters_are_checked() {
    assert_eq!(route(&request("workspace.open", obj(vec![]))), invalid("root is required"));
    assert_eq!(
        route(&request("workspace.open", obj(vec![("root", s("/w"))]))),
        Ok(Command::WorkspaceOpen { root: "/w".to_string() })
    );
    assert_eq!(
        route(&request("workspace.write", obj(vec![("path", s("a.md")), ("content", s("x"))]))),
        Ok(Command::WorkspaceWrite {
            path: "a.md".to_string(),
            content: "x".to_string(),
            provenance: WorkspaceProvenance::User,
        })
    );
    assert_eq!(
        route(&request(
            "workspace.write",
            obj(vec![("path", s("a.md")), ("content", s("x")), ("provenance", s("system"))])
        )),
        invalid("path, content, and a valid provenance are required")
    );
    assert_eq!(
        route(&request("session.prompt", obj(vec![("session_id", s("s1")), ("text", s("   "))]))),
        invalid("text is required")
    );
    assert_eq!(route(&request("session.prompt", obj(vec![]))), invalid("session_id is required"));
    assert_eq!(
        route(&request("session.cancel", obj(vec![("session_id", s("s1"))]))),
        invalid("session_id and run_id are required")
    );
    assert_eq!(
        route(&request(
            "permission.resolve",
            obj(vec![
                ("permission_id", s("p")),
                ("session_id", s("s")),
                ("run_id", s("r")),
                ("decision", s("allow_session")),
            ])
        )),
        Ok(Command::PermissionResolve {
            permission_id: "p".to_string(),
            session_id: "s".to_string(),
            run_id: "r".to_string(),
            decision: PermissionDecision::AllowSession,
        })
    );
    assert_eq!(
        route(&request("stream.cancel", obj(vec![]))),
        invalid("target_request_id is required")
    );
}

#[test]
fn capture_parameters_are_parsed() {
    assert_eq!(
        route(&request(
            "capture.create",
            obj(vec![("source", s("speech")), ("raw_text", s("hi")), ("intent", s("todo"))])
        )),
        Ok(Command::CaptureCreate {
            source: CaptureSource::Speech,
            raw_text: "hi".to_string(),
            intent: Some(CaptureIntent::Todo),
            started_at_ms: None,
        })
    );
    assert_eq!(
        route(&request("capture.create", obj(vec![("source", s("video")), ("raw_text", s("hi"))]))),
        invalid("source, raw_text, and a valid optional intent are required")
    );
    assert_eq!(
        route(&request("capture.abandon", obj(vec![("source", s("text")), ("started_at_ms", JsonValue::from_u64(5))]))),
        Ok(Command::CaptureAbandon { source: CaptureSource::Text, raw_text: String::new(), started_at_ms: Some(5) })
    );
    assert_eq!(
        route(&request("capture.correct", obj(vec![("capture_id", s("c")), ("intent", s("bogus"))]))),
        invalid("capture_id and a valid intent are required")
    );
    assert_eq!(route(&request("capture.list", JsonValue::Null)), Ok(Command::CaptureList { limit: 50 }));
    assert_eq!(route(&request("capture.metrics", JsonValue::Null)), Ok(Command::CaptureMetrics { since_ms: 0 }));
    assert_eq!(parse_capture_source("text"), Ok(CaptureSource::Text));
    assert_eq!(parse_capture_source("fax").unwrap_err().0, "Unsupported capture source: fax");
    assert_eq!(parse_capture_intent("work_update"), Ok(CaptureIntent::WorkUpdate));
    assert_eq!(parse_capture_intent("x").unwrap_err().0, "Unsupported capture intent: x");
    assert_eq!(parse_workspace_provenance("tool"), Ok(WorkspaceProvenance::Tool));
    assert_eq!(
        parse_workspace_provenance("external_filesystem"),
        Err(WorkspaceError("Unsupported write provenance: external_filesystem".to_string()))
    );
    assert_eq!(started_at_or_now(Some(7)), 7);
    assert!(started_at_or_now(None) > 0);
}

#[test]
fn context_queries_are_checked_when_answered() {
    let route_context = |params| match route(&request("workspace.context", params)) {
        Ok(Command::WorkspaceContext { query }) => query,
        other => panic!("unexpected {other:?}"),
    };
    assert_eq!(route_context(obj(vec![("scope", s("status"))])), ContextQuery::Status);
    assert_eq!(
        route_context(obj(vec![("scope", s("reference_path")), ("path", s("a"))])),
        ContextQuery::Rejected { message: "reference_id is required".to_string() }
    );
    assert_eq!(
        route_context(obj(vec![("scope", s("workspace_path"))])),
        ContextQuery::Rejected { message: "path is required".to_string() }
    );
    assert_eq!(
        route_context(obj(vec![])),
        ContextQuery::Rejected { message: "scope must be status, workspace_path, or reference_path".to_string() }
    );
}

#[test]
fn stream_parameters_are_clamped() {
    assert_eq!(
        route(&request("stream.start", JsonValue::Null)),
        Ok(Command::StreamStart { count: 20, interval_ms: 150 })
    );
    assert_eq!(
        route(&request(
            "stream.start",
            obj(vec![("count", JsonValue::from_u64(0)), ("interval_ms", JsonValue::from_u64(99_999))])
        )),
        Ok(Command::StreamStart { count: 1, interval_ms: 5000 })
    );
    assert_eq!(
        route(&request("stream.start", obj(vec![("count", JsonValue::from_u64(1000))]))),
        Ok(Command::StreamStart { count: 100, interval_ms: 150 })
    );
}

#[test]
fn envelopes_carry_the_protocol_version() {
    let ok = success_response("health-1", obj(vec![("status", s("healthy"))]));
    assert_eq!(text_of(member(&ok, "id")), "health-1");
    assert_eq!(member(member(&ok, "version"), "major").as_u64(), Some(1));
    assert_eq!(member(member(&ok, "version"), "minor").as_u64(), Some(0));
    assert_eq!(text_of(member(member(&ok, "result"), "status")), "healthy");
    let error = error_response(None, "malformed_json", "Invalid request: x");
    assert!(matches!(member(&error, "id"), JsonValue::Null));
    assert_eq!(text_of(member(member(&error, "error"), "code")), "malformed_json");
    assert_eq!(text_of(member(member(&error, "error"), "message")), "Invalid request: x");
    let ev = event("agent.event", JsonValue::Bool(true));
    assert_eq!(text_of(member(&ev, "event")), "agent.event");
    assert!(matches!(member(&ev, "data"), JsonValue::Bool(true)));
    let accepted = stream_accepted(3);
    assert_eq!(member(&accepted, "count").as_u64(), Some(3));
}

#[test]
fn an_uncancelled_stream_sends_every_chunk_then_completes() {
    let mut run = StreamRun::new(3);
    let mut events = Vec::new();
    while !run.is_ended() {
        events.extend(run.advance(StreamInput::Tick));
    }
    assert_eq!(
        events,
        [
            StreamEvent::Chunk { sequence: 1 },
            StreamEvent::Chunk { sequence: 2 },
            StreamEvent::Chunk { sequence: 3 },
            StreamEvent::Completed { emitted: 3 },
        ]
    );
    assert!(run.advance(StreamInput::Tick).is_empty());
    let chunk = stream_event_json("stream-1", StreamEvent::Chunk { sequence: 2 });
    assert_eq!(text_of(member(&chunk, "event")), "stream.chunk");
    assert_eq!(text_of(member(member(&chunk, "data"), "text")), "Deterministic chunk 2");
    assert_eq!(member(member(&chunk, "data"), "sequence").as_u64(), Some(2));
    let done = stream_event_json("stream-1", StreamEvent::Completed { emitted: 3 });
    assert_eq!(text_of(member(&done, "event")), "stream.completed");
    assert_eq!(member(member(&done, "data"), "emitted").as_u64(), Some(3));
}

#[test]
fn a_cancelled_stream_ends_once_without_later_chunks() {
    let mut run = StreamRun::new(30);
    let mut events = Vec::new();
    events.extend(run.advance(StreamInput::Tick));
    events.extend(run.advance(StreamInput::Signal(false)));
    events.extend(run.advance(StreamInput::Tick));
    events.extend(run.advance(StreamInput::Signal(true)));
    events.extend(run.advance(StreamInput::Tick));
    events.extend(run.advance(StreamInput::Signal(true)));
    assert_eq!(
        events,
        [
            StreamEvent::Chunk { sequence: 1 },
            StreamEvent::Chunk { sequence: 3 },
            StreamEvent::Cancelled { emitted: 3 },
        ]
    );
    let cancelled = stream_event_json("stream-2", StreamEvent::Cancelled { emitted: 3 });
    assert_eq!(text_of(member(&cancelled, "event")), "stream.cancelled");
    let mut aborted = StreamRun::new(2);
    aborted.abort();
    assert!(aborted.advance(StreamInput::Tick).is_empty());
}

#[test]
fn a_request_id_runs_at_most_one_stream() {
    let mut streams = ActiveStreams::new();
    assert_eq!(streams.start("stream-1"), Ok(()));
    assert_eq!(
        streams.start("stream-1"),
        Err(ErrorReply {
            code: "duplicate_request".to_string(),
            message: "A stream already uses this request ID".to_string(),
        })
    );
    assert!(streams.contains("stream-1"));
    assert_eq!(streams.start("stream-2"), Ok(()));
    streams.remove("stream-1");
    assert!(!streams.contains("stream-1"));
    assert_eq!(streams.start("stream-1"), Ok(()));
    let mut drained = streams.drain();
    drained.sort();
    assert_eq!(drained, ["stream-1", "stream-2"]);
    assert!(!streams.contains("stream-2"));
}
