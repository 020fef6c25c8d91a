//! The local IPC protocol: decoding requests into commands with their
//! parameter checks, the response and event envelopes, and the
//! deterministic stream that a client can cancel.

use vstd::prelude::*;
use crate::text::{copy_string, owned, str_eq, string_of, trim, chars_trim, chars_of, views_of};
use crate::decimal::{decimal, u64_decimal};
use crate::json::{JsonNumber, JsonValue, json_get, str_of, u64_of, u64_value, str_copy};
use crate::protocol::{IPC_PROTOCOL_MAJOR, IPC_PROTOCOL_MINOR, ProtocolVersion};
use crate::workspace::{WorkspaceError, WorkspaceProvenance};
use crate::capture::{CaptureError, CaptureIntent, CaptureSource};
use crate::permission::PermissionDecision;

verus! {

// ---------------------------------------------------------------------------
// Parameter values
// ---------------------------------------------------------------------------

/// The provenance a write names.
pub open spec fn write_provenance(v: Seq<char>) -> Option<WorkspaceProvenance> {
    if v == "user"@ {
        Some(WorkspaceProvenance::User)
    } else if v == "agent"@ {
        Some(WorkspaceProvenance::Agent)
    } else if v == "tool"@ {
        Some(WorkspaceProvenance::Tool)
    } else if v == "scheduler"@ {
        Some(WorkspaceProvenance::Scheduler)
    } else {
        None
    }
}

/// Parses the provenance of a client write: `user`, `agent`, `tool` or
/// `scheduler`.
pub fn parse_workspace_provenance(value: &str) -> (r: Result<WorkspaceProvenance, WorkspaceError>)
    ensures
        match write_provenance(value@) {
            Some(p) => r == Ok::<WorkspaceProvenance, WorkspaceError>(p),
            None => r matches Err(e) && e.0@ == "Unsupported write provenance: "@ + value@,
        },
{
    if str_eq(value, "user") {
        Ok(WorkspaceProvenance::User)
    } else if str_eq(value, "agent") {
        Ok(WorkspaceProvenance::Agent)
    } else if str_eq(value, "tool") {
        Ok(WorkspaceProvenance::Tool)
    } else if str_eq(value, "scheduler") {
        Ok(WorkspaceProvenance::Scheduler)
    } else {
        let mut m = owned("Unsupported write provenance: ");
        m.append(value);
        Err(WorkspaceError(m))
    }
}

/// The capture source a request names.
pub open spec fn source_named(v: Seq<char>) -> Option<CaptureSource> {
    if v == "text"@ {
        Some(CaptureSource::Text)
    } else if v == "speech"@ {
        Some(CaptureSource::Speech)
    } else {
        None
    }
}

/// Parses a capture source: `text` or `speech`.
pub fn parse_capture_source(value: &str) -> (r: Result<CaptureSource, CaptureError>)
    ensures
        match source_named(value@) {
            Some(s) => r == Ok::<CaptureSource, CaptureError>(s),
            None => r matches Err(e) && e.0@ == "Unsupported capture source: "@ + value@,
        },
{
    if str_eq(value, "text") {
        Ok(CaptureSource::Text)
    } else if str_eq(value, "speech") {
        Ok(CaptureSource::Speech)
    } else {
        let mut m = owned("Unsupported capture source: ");
        m.append(value);
        Err(CaptureError(m))
    }
}

/// The capture intent a request names.
pub open spec fn intent_named(v: Seq<char>) -> Option<CaptureIntent> {
    if v == "note"@ {
        Some(CaptureIntent::Note)
    } else if v == "idea"@ {
        Some(CaptureIntent::Idea)
    } else if v == "todo"@ {
        Some(CaptureIntent::Todo)
    } else if v == "work_update"@ {
        Some(CaptureIntent::WorkUpdate)
    } else if v == "unknown"@ {
        Some(CaptureIntent::Unknown)
    } else {
        None
    }
}

/// Parses a capture intent: `note`, `idea`, `todo`, `work_update` or
/// `unknown`.
pub fn parse_capture_intent(value: &str) -> (r: Result<CaptureIntent, CaptureError>)
    ensures
        match intent_named(value@) {
            Some(i) => r == Ok::<CaptureIntent, CaptureError>(i),
            None => r matches Err(e) && e.0@ == "Unsupported capture intent: "@ + value@,
        },
{
    if str_eq(value, "note") {
        Ok(CaptureIntent::Note)
    } else if str_eq(value, "idea") {
        Ok(CaptureIntent::Idea)
    } else if str_eq(value, "todo") {
        Ok(CaptureIntent::Todo)
    } else if str_eq(value, "work_update") {
        Ok(CaptureIntent::WorkUpdate)
    } else if str_eq(value, "unknown") {
        Ok(CaptureIntent::Unknown)
    } else {
        let mut m = owned("Unsupported capture intent: ");
        m.append(value);
        Err(CaptureError(m))
    }
}

/// The permission decision a request names.
pub open spec fn decision_named(v: Seq<char>) -> Option<PermissionDecision> {
    if v == "allow_once"@ {
        Some(PermissionDecision::AllowOnce)
    } else if v == "allow_session"@ {
        Some(PermissionDecision::AllowSession)
    } else if v == "deny"@ {
        Some(PermissionDecision::Deny)
    } else {
        None
    }
}

/// The name a client writes for a decision.
pub open spec fn decision_wire_name(d: PermissionDecision) -> Seq<char> {
    match d {
        PermissionDecision::AllowOnce => "allow_once"@,
        PermissionDecision::AllowSession => "allow_session"@,
        PermissionDecision::Deny => "deny"@,
    }
}

/// Decision names map one to one: a name is read as a decision exactly when
/// it is that decision's name, so `allow_once` never grants a session and
/// `deny` never allows.
pub proof fn law_decision_names_are_one_to_one(v: Seq<char>, d: PermissionDecision)
    ensures
        decision_named(v) == Some(d) <==> v == decision_wire_name(d),
{
    reveal_strlit("allow_once");
    reveal_strlit("allow_session");
    reveal_strlit("deny");
    assert("allow_once"@[6] != "allow_session"@[6]);
    assert("allow_once"@[0] != "deny"@[0]);
    assert("allow_session"@[0] != "deny"@[0]);
}

fn parse_decision(value: &str) -> (r: Option<PermissionDecision>)
    ensures
        r == decision_named(value@),
{
    if str_eq(value, "allow_once") {
        Some(PermissionDecision::AllowOnce)
    } else if str_eq(value, "allow_session") {
        Some(PermissionDecision::AllowSession)
    } else if str_eq(value, "deny") {
        Some(PermissionDecision::Deny)
    } else {
        None
    }
}


// ---------------------------------------------------------------------------
// Requests and commands
// ---------------------------------------------------------------------------

/// A decoded request line: its protocol version, ID, method and parameters
/// (`null` where it has none).
#[derive(Debug)]
pub struct Request {
    pub version: ProtocolVersion,
    pub id: String,
    pub method: String,
    pub params: JsonValue,
}

/// A refused request: an error code and a message for the client.
#[derive(Debug, Clone, PartialEq, Eq)]
pub struct ErrorReply {
    pub code: String,
    pub message: String,
}

/// What `workspace.context` asks for.
#[derive(Debug, Clone, PartialEq, Eq)]
pub enum ContextQuery {
    Status,
    WorkspacePath { path: String },
    ReferencePath { reference_id: String, path: String },
    /// A query that the open workspace answers with this error.
    Rejected { message: String },
}

/// What a valid request asks the core to do.
#[derive(Debug, Clone, PartialEq, Eq)]
pub enum Command {
    Hello,
    Health,
    AgentsList,
    AgentsRefresh,
    WorkspaceOpen { root: String },
    WorkspaceStatus,
    WorkspaceRefresh,
    WorkspaceWrite { path: String, content: String, provenance: WorkspaceProvenance },
    ReferenceAdd { path: String },
    ReferenceRemove { reference_id: String },
    WorkspaceEvents { limit: u64 },
    WorkspaceRebuild,
    WorkspaceContext { query: ContextQuery },
    CaptureCreate {
        source: CaptureSource,
        raw_text: String,
        intent: Option<CaptureIntent>,
        started_at_ms: Option<u64>,
    },
    CaptureAbandon { source: CaptureSource, raw_text: String, started_at_ms: Option<u64> },
    CaptureCorrect { capture_id: String, intent: CaptureIntent },
    CaptureList { limit: u64 },
    CaptureMetrics { since_ms: u64 },
    SessionCreate { agent_id: String, cwd: Option<String> },
    SessionGet { session_id: String },
    SessionPrompt { session_id: String, text: String },
    SessionCancel { session_id: String, run_id: String },
    PermissionsPending { session_id: Option<String> },
    PermissionsHistory { session_id: Option<String> },
    PermissionResolve {
        permission_id: String,
        session_id: String,
        run_id: String,
        decision: PermissionDecision,
    },
    StreamStart { count: u64, interval_ms: u64 },
    StreamCancel { target_request_id: String },
}

/// The text of string parameter `key`.
pub open spec fn text_param(p: JsonValue, key: Seq<char>) -> Option<Seq<char>> {
    str_of(json_get(p, key))
}

/// The value of unsigned parameter `key`.
pub open spec fn u64_param(p: JsonValue, key: Seq<char>) -> Option<u64> {
    u64_of(json_get(p, key))
}

/// The text of an optional string.
pub open spec fn opt_view(o: Option<String>) -> Option<Seq<char>> {
    match o {
        Some(s) => Some(s@),
        None => None,
    }
}

/// `r` refuses the request with `invalid_params` and `message`.
pub open spec fn invalid_params(r: Result<Command, ErrorReply>, message: Seq<char>) -> bool {
    r matches Err(e) && e.code@ == "invalid_params"@ && e.message@ == message
}

/// `x` clamped to `lo..=hi`.
pub open spec fn clamped(x: u64, lo: u64, hi: u64) -> u64 {
    if x < lo {
        lo
    } else if x > hi {
        hi
    } else {
        x
    }
}

/// An optional parameter given as a string that must name a value: absent
/// (or not a string) gives `Some(None)`, a valid name `Some(Some(v))`, any
/// other string `None`.
pub open spec fn optional_named<T>(text: Option<Seq<char>>, named: spec_fn(Seq<char>) -> Option<T>) -> Option<Option<T>> {
    match text {
        None => Some(None),
        Some(t) => match named(t) {
            Some(v) => Some(Some(v)),
            None => None,
        },
    }
}

/// The capture source a request's `source` names.
pub open spec fn source_param(p: JsonValue) -> Option<CaptureSource> {
    match text_param(p, "source"@) {
        Some(t) => source_named(t),
        None => None,
    }
}

/// The capture intent a request's `intent` names.
pub open spec fn intent_param(p: JsonValue) -> Option<CaptureIntent> {
    match text_param(p, "intent"@) {
        Some(t) => intent_named(t),
        None => None,
    }
}

/// The decision a request's `decision` names.
pub open spec fn decision_param(p: JsonValue) -> Option<PermissionDecision> {
    match text_param(p, "decision"@) {
        Some(t) => decision_named(t),
        None => None,
    }
}

/// How `workspace.context` parameters are read.
pub open spec fn context_query_ok(p: JsonValue, q: ContextQuery) -> bool {
    match text_param(p, "scope"@) {
        Some(s) => if s == "status"@ {
            q is Status
        } else if s == "workspace_path"@ {
            match text_param(p, "path"@) {
                Some(path) => q matches ContextQuery::WorkspacePath { path: x } && x@ == path,
                None => q matches ContextQuery::Rejected { message } && message@ == "path is required"@,
            }
        } else if s == "reference_path"@ {
            match (text_param(p, "reference_id"@), text_param(p, "path"@)) {
                (Some(id), Some(path)) => q matches ContextQuery::ReferencePath {
                    reference_id: x,
                    path: y,
                } && x@ == id && y@ == path,
                (None, _) => q matches ContextQuery::Rejected { message } && message@
                    == "reference_id is required"@,
                (Some(_), None) => q matches ContextQuery::Rejected { message } && message@
                    == "path is required"@,
            }
        } else {
            q matches ContextQuery::Rejected { message } && message@
                == "scope must be status, workspace_path, or reference_path"@
        },
        None => q matches ContextQuery::Rejected { message } && message@
            == "scope must be status, workspace_path, or reference_path"@,
    }
}

/// How the core answers a request with `method` and `params` at protocol
/// `version`: the command it runs, or why it refuses.
pub open spec fn routed(
    version: ProtocolVersion,
    method: Seq<char>,
    p: JsonValue,
    r: Result<Command, ErrorReply>,
) -> bool {
    if version.major != IPC_PROTOCOL_MAJOR {
        r matches Err(e) && e.code@ == "incompatible_version"@ && e.message@ == "Protocol major "@
            + decimal(version.major as nat) + " is not supported; expected "@ + decimal(
            IPC_PROTOCOL_MAJOR as nat,
        )
    } else if method == "core.hello"@ {
        r matches Ok(Command::Hello)
    } else if method == "core.health"@ {
        r matches Ok(Command::Health)
    } else if method == "agents.list"@ {
        r matches Ok(Command::AgentsList)
    } else if method == "agents.refresh"@ {
        r matches Ok(Command::AgentsRefresh)
    } else if method == "workspace.open"@ {
        match text_param(p, "root"@) {
            Some(root) => r matches Ok(Command::WorkspaceOpen { root: x }) && x@ == root,
            None => invalid_params(r, "root is required"@),
        }
    } else if method == "workspace.status"@ {
        r matches Ok(Command::WorkspaceStatus)
    } else if method == "workspace.refresh"@ {
        r matches Ok(Command::WorkspaceRefresh)
    } else if method == "workspace.write"@ {
        match (
            text_param(p, "path"@),
            text_param(p, "content"@),
            optional_named(text_param(p, "provenance"@), |t: Seq<char>| write_provenance(t)),
        ) {
            (Some(path), Some(content), Some(provenance)) => r matches Ok(
                Command::WorkspaceWrite { path: x, content: y, provenance: z },
            ) && x@ == path && y@ == content && z == match provenance {
                Some(v) => v,
                None => WorkspaceProvenance::User,
            },
            _ => invalid_params(r, "path, content, and a valid provenance are required"@),
        }
    } else if method == "workspace.reference.add"@ {
        match text_param(p, "path"@) {
            Some(path) => r matches Ok(Command::ReferenceAdd { path: x }) && x@ == path,
            None => invalid_params(r, "path is required"@),
        }
    } else if method == "workspace.reference.remove"@ {
        match text_param(p, "reference_id"@) {
            Some(id) => r matches Ok(Command::ReferenceRemove { reference_id: x }) && x@ == id,
            None => invalid_params(r, "reference_id is required"@),
        }
    } else if method == "workspace.events"@ {
        r == Ok::<Command, ErrorReply>(
            Command::WorkspaceEvents {
                limit: match u64_param(p, "limit"@) {
                    Some(n) => n,
                    None => 50,
                },
            },
        )
    } else if method == "workspace.rebuild"@ {
        r matches Ok(Command::WorkspaceRebuild)
    } else if method == "workspace.context"@ {
        r matches Ok(Command::WorkspaceContext { query }) && context_query_ok(p, query)
    } else if method == "capture.create"@ {
        match (
            source_param(p),
            text_param(p, "raw_text"@),
            optional_named(text_param(p, "intent"@), |t: Seq<char>| intent_named(t)),
        ) {
            (Some(source), Some(raw), Some(intent)) => r matches Ok(
                Command::CaptureCreate { source: s, raw_text: x, intent: i, started_at_ms: t },
            ) && s == source && x@ == raw && i == intent && t == u64_param(p, "started_at_ms"@),
            _ => invalid_params(r, "source, raw_text, and a valid optional intent are required"@),
        }
    } else if method == "capture.abandon"@ {
        match source_param(p) {
            Some(source) => r matches Ok(
                Command::CaptureAbandon { source: s, raw_text: x, started_at_ms: t },
            ) && s == source && x@ == match text_param(p, "raw_text"@) {
                Some(raw) => raw,
                None => Seq::empty(),
            } && t == u64_param(p, "started_at_ms"@),
            None => invalid_params(r, "a valid source is required"@),
        }
    } else if method == "capture.correct"@ {
        match (
            text_param(p, "capture_id"@),
            intent_param(p),
        ) {
            (Some(id), Some(intent)) => r matches Ok(Command::CaptureCorrect { capture_id: x, intent: i })
                && x@ == id && i == intent,
            _ => invalid_params(r, "capture_id and a valid intent are required"@),
        }
    } else if method == "capture.list"@ {
        r == Ok::<Command, ErrorReply>(
            Command::CaptureList {
                limit: match u64_param(p, "limit"@) {
                    Some(n) => n,
                    None => 50,
                },
            },
        )
    } else if method == "capture.metrics"@ {
        r == Ok::<Command, ErrorReply>(
            Command::CaptureMetrics {
                since_ms: match u64_param(p, "since_ms"@) {
                    Some(n) => n,
                    None => 0,
                },
            },
        )
    } else if method == "session.create"@ {
        match text_param(p, "agent_id"@) {
            Some(id) => r matches Ok(Command::SessionCreate { agent_id: x, cwd }) && x@ == id
                && opt_view(cwd) == text_param(p, "cwd"@),
            None => invalid_params(r, "agent_id is required"@),
        }
    } else if method == "session.get"@ {
        match text_param(p, "session_id"@) {
            Some(id) => r matches Ok(Command::SessionGet { session_id: x }) && x@ == id,
            None => invalid_params(r, "session_id is required"@),
        }
    } else if method == "session.prompt"@ {
        match (text_param(p, "session_id"@), text_param(p, "text"@)) {
            (None, _) => invalid_params(r, "session_id is required"@),
            (Some(id), Some(text)) => if trim(text).len() > 0 {
                r matches Ok(Command::SessionPrompt { session_id: x, text: y }) && x@ == id && y@
                    == text
            } else {
                invalid_params(r, "text is required"@)
            },
            (Some(_), None) => invalid_params(r, "text is required"@),
        }
    } else if method == "session.cancel"@ {
        match (text_param(p, "session_id"@), text_param(p, "run_id"@)) {
            (Some(s), Some(run)) => r matches Ok(Command::SessionCancel { session_id: x, run_id: y })
                && x@ == s && y@ == run,
            _ => invalid_params(r, "session_id and run_id are required"@),
        }
    } else if method == "permissions.pending"@ {
        r matches Ok(Command::PermissionsPending { session_id }) && opt_view(session_id)
            == text_param(p, "session_id"@)
    } else if method == "permissions.history"@ {
        r matches Ok(Command::PermissionsHistory { session_id }) && opt_view(session_id)
            == text_param(p, "session_id"@)
    } else if method == "permission.resolve"@ {
        match (
            text_param(p, "permission_id"@),
            text_param(p, "session_id"@),
            text_param(p, "run_id"@),
            decision_param(p),
        ) {
            (Some(a), Some(b), Some(c), Some(d)) => r matches Ok(
                Command::PermissionResolve { permission_id: x, session_id: y, run_id: z, decision: w },
            ) && x@ == a && y@ == b && z@ == c && w == d,
            _ => invalid_params(
                r,
                "permission_id, session_id, run_id, and a valid decision are required"@,
            ),
        }
    } else if method == "stream.start"@ {
        r == Ok::<Command, ErrorReply>(
            Command::StreamStart {
                count: clamped(
                    match u64_param(p, "count"@) {
                        Some(n) => n,
                        None => 20,
                    },
                    1,
                    100,
                ),
                interval_ms: clamped(
                    match u64_param(p, "interval_ms"@) {
                        Some(n) => n,
                        None => 150,
                    },
                    1,
                    5000,
                ),
            },
        )
    } else if method == "stream.cancel"@ {
        match text_param(p, "target_request_id"@) {
            Some(id) => r matches Ok(Command::StreamCancel { target_request_id: x }) && x@ == id,
            None => invalid_params(r, "target_request_id is required"@),
        }
    } else {
        r matches Err(e) && e.code@ == "method_not_found"@ && e.message@ == "Unknown method: "@
            + method
    }
}


/// The text of string parameter `key`.
fn param_text(p: &JsonValue, key: &str) -> (r: Option<String>)
    ensures
        opt_view(r) == text_param(*p, key@),
{
    str_copy(p.get(key))
}

/// The value of unsigned parameter `key`.
fn param_u64(p: &JsonValue, key: &str) -> (r: Option<u64>)
    ensures
        r == u64_param(*p, key@),
{
    u64_value(p.get(key))
}

fn invalid(message: &str) -> (r: Result<Command, ErrorReply>)
    ensures
        invalid_params(r, message@),
{
    Err(ErrorReply { code: owned("invalid_params"), message: owned(message) })
}

fn clamp_u64(x: u64, lo: u64, hi: u64) -> (r: u64)
    ensures
        r == clamped(x, lo, hi),
{
    if x < lo {
        lo
    } else if x > hi {
        hi
    } else {
        x
    }
}

/// The version every answer the core sends carries.
pub open spec fn current_version() -> ProtocolVersion {
    ProtocolVersion { major: IPC_PROTOCOL_MAJOR, minor: IPC_PROTOCOL_MINOR }
}

/// The methods of the core and the agent registry.
pub open spec fn core_method(m: Seq<char>) -> bool {
    m == "core.hello"@ || m == "core.health"@ || m == "agents.list"@ || m == "agents.refresh"@
}

/// The workspace methods.
pub open spec fn workspace_method(m: Seq<char>) -> bool {
    ||| m == "workspace.open"@
    ||| m == "workspace.status"@
    ||| m == "workspace.refresh"@
    ||| m == "workspace.write"@
    ||| m == "workspace.reference.add"@
    ||| m == "workspace.reference.remove"@
    ||| m == "workspace.events"@
    ||| m == "workspace.rebuild"@
    ||| m == "workspace.context"@
}

/// The capture methods.
pub open spec fn capture_method(m: Seq<char>) -> bool {
    ||| m == "capture.create"@
    ||| m == "capture.abandon"@
    ||| m == "capture.correct"@
    ||| m == "capture.list"@
    ||| m == "capture.metrics"@
}

/// The session, permission and stream methods.
pub open spec fn session_method(m: Seq<char>) -> bool {
    ||| m == "session.create"@
    ||| m == "session.get"@
    ||| m == "session.prompt"@
    ||| m == "session.cancel"@
    ||| m == "permissions.pending"@
    ||| m == "permissions.history"@
    ||| m == "permission.resolve"@
    ||| m == "stream.start"@
    ||| m == "stream.cancel"@
}

/// The method names differ from one another: each has its length, and
/// names of one length differ at the characters given here.
proof fn lemma_method_names()
    ensures
        "core.hello"@.len() == 10,
        "core.health"@.len() == 11,
        "core.health"@[0] == 'c',
        "agents.list"@.len() == 11,
        "agents.list"@[0] == 'a',
        "agents.refresh"@.len() == 14,
        "agents.refresh"@[0] == 'a',
        "agents.refresh"@[8] == 'e',
        "agents.refresh"@[9] == 'f',
        "workspace.open"@.len() == 14,
        "workspace.open"@[0] == 'w',
        "workspace.open"@[8] == 'e',
        "workspace.open"@[9] == '.',
        "workspace.status"@.len() == 16,
        "workspace.status"@[10] == 's',
        "workspace.refresh"@.len() == 17,
        "workspace.refresh"@[10] == 'r',
        "workspace.refresh"@[12] == 'f',
        "workspace.write"@.len() == 15,
        "workspace.write"@[0] == 'w',
        "workspace.write"@[8] == 'e',
        "workspace.reference.add"@.len() == 23,
        "workspace.reference.remove"@.len() == 26,
        "workspace.events"@.len() == 16,
        "workspace.events"@[10] == 'e',
        "workspace.rebuild"@.len() == 17,
        "workspace.rebuild"@[10] == 'r',
        "workspace.rebuild"@[12] == 'b',
        "workspace.context"@.len() == 17,
        "workspace.context"@[10] == 'c',
        "workspace.context"@[12] == 'n',
        "capture.create"@.len() == 14,
        "capture.create"@[0] == 'c',
        "capture.create"@[8] == 'c',
        "capture.create"@[9] == 'r',
        "capture.abandon"@.len() == 15,
        "capture.abandon"@[0] == 'c',
        "capture.abandon"@[8] == 'a',
        "capture.correct"@.len() == 15,
        "capture.correct"@[0] == 'c',
        "capture.correct"@[8] == 'c',
        "capture.list"@.len() == 12,
        "capture.list"@[0] == 'c',
        "capture.metrics"@.len() == 15,
        "capture.metrics"@[0] == 'c',
        "capture.metrics"@[8] == 'm',
        "session.create"@.len() == 14,
        "session.create"@[0] == 's',
        "session.create"@[8] == 'c',
        "session.create"@[9] == 'r',
        "session.get"@.len() == 11,
        "session.get"@[0] == 's',
        "session.prompt"@.len() == 14,
        "session.prompt"@[0] == 's',
        "session.prompt"@[8] == 'p',
        "session.prompt"@[9] == 'r',
        "session.cancel"@.len() == 14,
        "session.cancel"@[0] == 's',
        "session.cancel"@[8] == 'c',
        "session.cancel"@[9] == 'a',
        "permissions.pending"@.len() == 19,
        "permissions.pending"@[12] == 'p',
        "permissions.history"@.len() == 19,
        "permissions.history"@[12] == 'h',
        "permission.resolve"@.len() == 18,
        "stream.start"@.len() == 12,
        "stream.start"@[0] == 's',
        "stream.cancel"@.len() == 13,
{
    reveal_strlit("core.hello");
    reveal_strlit("core.health");
    reveal_strlit("agents.list");
    reveal_strlit("agents.refresh");
    reveal_strlit("workspace.open");
    reveal_strlit("workspace.status");
    reveal_strlit("workspace.refresh");
    reveal_strlit("workspace.write");
    reveal_strlit("workspace.reference.add");
    reveal_strlit("workspace.reference.remove");
    reveal_strlit("workspace.events");
    reveal_strlit("workspace.rebuild");
    reveal_strlit("workspace.context");
    reveal_strlit("capture.create");
    reveal_strlit("capture.abandon");
    reveal_strlit("capture.correct");
    reveal_strlit("capture.list");
    reveal_strlit("capture.metrics");
    reveal_strlit("session.create");
    reveal_strlit("session.get");
    reveal_strlit("session.prompt");
    reveal_strlit("session.cancel");
    reveal_strlit("permissions.pending");
    reveal_strlit("permissions.history");
    reveal_strlit("permission.resolve");
    reveal_strlit("stream.start");
    reveal_strlit("stream.cancel");
}

fn route_core(m: &str) -> (r: Option<Result<Command, ErrorReply>>)
    ensures
        r is Some <==> core_method(m@),
        r matches Some(x) ==> routed(current_version(), m@, JsonValue::Null, x),
{
    if str_eq(m, "core.hello") {
        Some(Ok(Command::Hello))
    } else if str_eq(m, "core.health") {
        Some(Ok(Command::Health))
    } else if str_eq(m, "agents.list") {
        Some(Ok(Command::AgentsList))
    } else if str_eq(m, "agents.refresh") {
        Some(Ok(Command::AgentsRefresh))
    } else {
        None
    }
}

fn context_query(p: &JsonValue) -> (q: ContextQuery)
    ensures
        context_query_ok(*p, q),
{
    let scope_message = "scope must be status, workspace_path, or reference_path";
    match param_text(p, "scope") {
        Some(scope) => {
            if str_eq(scope.as_str(), "status") {
                ContextQuery::Status
            } else if str_eq(scope.as_str(), "workspace_path") {
                match param_text(p, "path") {
                    Some(path) => ContextQuery::WorkspacePath { path },
                    None => ContextQuery::Rejected { message: owned("path is required") },
                }
            } else if str_eq(scope.as_str(), "reference_path") {
                match param_text(p, "reference_id") {
                    Some(reference_id) => match param_text(p, "path") {
                        Some(path) => ContextQuery::ReferencePath { reference_id, path },
                        None => ContextQuery::Rejected { message: owned("path is required") },
                    },
                    None => ContextQuery::Rejected { message: owned("reference_id is required") },
                }
            } else {
                ContextQuery::Rejected { message: owned(scope_message) }
            }
        },
        None => ContextQuery::Rejected { message: owned(scope_message) },
    }
}

fn route_workspace(m: &str, p: &JsonValue) -> (r: Option<Result<Command, ErrorReply>>)
    ensures
        r is Some <==> workspace_method(m@),
        r matches Some(x) ==> routed(current_version(), m@, *p, x),
{
    proof {
        lemma_method_names();
    }
    if str_eq(m, "workspace.open") {
        Some(
            match param_text(p, "root") {
                Some(root) => Ok(Command::WorkspaceOpen { root }),
                None => invalid("root is required"),
            },
        )
    } else if str_eq(m, "workspace.status") {
        Some(Ok(Command::WorkspaceStatus))
    } else if str_eq(m, "workspace.refresh") {
        Some(Ok(Command::WorkspaceRefresh))
    } else if str_eq(m, "workspace.write") {
        let path = param_text(p, "path");
        let content = param_text(p, "content");
        let provenance: Option<Option<WorkspaceProvenance>> = match param_text(p, "provenance") {
            None => Some(None),
            Some(t) => match parse_workspace_provenance(t.as_str()) {
                Ok(v) => Some(Some(v)),
                Err(_) => None,
            },
        };
        Some(
            match (path, content, provenance) {
                (Some(path), Some(content), Some(provenance)) => Ok(
                    Command::WorkspaceWrite {
                        path,
                        content,
                        provenance: match provenance {
                            Some(v) => v,
                            None => WorkspaceProvenance::User,
                        },
                    },
                ),
                _ => invalid("path, content, and a valid provenance are required"),
            },
        )
    } else if str_eq(m, "workspace.reference.add") {
        Some(
            match param_text(p, "path") {
                Some(path) => Ok(Command::ReferenceAdd { path }),
                None => invalid("path is required"),
            },
        )
    } else if str_eq(m, "workspace.reference.remove") {
        Some(
            match param_text(p, "reference_id") {
                Some(reference_id) => Ok(Command::ReferenceRemove { reference_id }),
                None => invalid("reference_id is required"),
            },
        )
    } else if str_eq(m, "workspace.events") {
        let limit = match param_u64(p, "limit") {
            Some(n) => n,
            None => 50,
        };
        Some(Ok(Command::WorkspaceEvents { limit }))
    } else if str_eq(m, "workspace.rebuild") {
        Some(Ok(Command::WorkspaceRebuild))
    } else if str_eq(m, "workspace.context") {
        Some(Ok(Command::WorkspaceContext { query: context_query(p) }))
    } else {
        None
    }
}

fn source_of(p: &JsonValue) -> (r: Option<CaptureSource>)
    ensures
        r == source_param(*p),
{
    match param_text(p, "source") {
        Some(t) => match parse_capture_source(t.as_str()) {
            Ok(s) => Some(s),
            Err(_) => None,
        },
        None => None,
    }
}

fn route_capture(m: &str, p: &JsonValue) -> (r: Option<Result<Command, ErrorReply>>)
    ensures
        r is Some <==> capture_method(m@),
        r matches Some(x) ==> routed(current_version(), m@, *p, x),
{
    proof {
        lemma_method_names();
    }
    if str_eq(m, "capture.create") {
        let source = source_of(p);
        let raw_text = param_text(p, "raw_text");
        let intent: Option<Option<CaptureIntent>> = match param_text(p, "intent") {
            None => Some(None),
            Some(t) => match parse_capture_intent(t.as_str()) {
                Ok(v) => Some(Some(v)),
                Err(_) => None,
            },
        };
        let started_at_ms = param_u64(p, "started_at_ms");
        Some(
            match (source, raw_text, intent) {
                (Some(source), Some(raw_text), Some(intent)) => Ok(
                    Command::CaptureCreate { source, raw_text, intent, started_at_ms },
                ),
                _ => invalid("source, raw_text, and a valid optional intent are required"),
            },
        )
    } else if str_eq(m, "capture.abandon") {
        let raw_text = match param_text(p, "raw_text") {
            Some(t) => t,
            None => String::new(),
        };
        let started_at_ms = param_u64(p, "started_at_ms");
        Some(
            match source_of(p) {
                Some(source) => Ok(Command::CaptureAbandon { source, raw_text, started_at_ms }),
                None => invalid("a valid source is required"),
            },
        )
    } else if str_eq(m, "capture.correct") {
        let capture_id = param_text(p, "capture_id");
        let intent = match param_text(p, "intent") {
            Some(t) => match parse_capture_intent(t.as_str()) {
                Ok(v) => Some(v),
                Err(_) => None,
            },
            None => None,
        };
        Some(
            match (capture_id, intent) {
                (Some(capture_id), Some(intent)) => Ok(Command::CaptureCorrect { capture_id, intent }),
                _ => invalid("capture_id and a valid intent are required"),
            },
        )
    } else if str_eq(m, "capture.list") {
        let limit = match param_u64(p, "limit") {
            Some(n) => n,
            None => 50,
        };
        Some(Ok(Command::CaptureList { limit }))
    } else if str_eq(m, "capture.metrics") {
        let since_ms = match param_u64(p, "since_ms") {
            Some(n) => n,
            None => 0,
        };
        Some(Ok(Command::CaptureMetrics { since_ms }))
    } else {
        None
    }
}

fn route_session(m: &str, p: &JsonValue) -> (r: Option<Result<Command, ErrorReply>>)
    ensures
        r is Some <==> session_method(m@),
        r matches Some(x) ==> routed(current_version(), m@, *p, x),
{
    proof {
        lemma_method_names();
    }
    if str_eq(m, "session.create") {
        Some(
            match param_text(p, "agent_id") {
                Some(agent_id) => Ok(Command::SessionCreate { agent_id, cwd: param_text(p, "cwd") }),
                None => invalid("agent_id is required"),
            },
        )
    } else if str_eq(m, "session.get") {
        Some(
            match param_text(p, "session_id") {
                Some(session_id) => Ok(Command::SessionGet { session_id }),
                None => invalid("session_id is required"),
            },
        )
    } else if str_eq(m, "session.prompt") {
        Some(
            match param_text(p, "session_id") {
                None => invalid("session_id is required"),
                Some(session_id) => match param_text(p, "text") {
                    Some(text) => {
                        if chars_trim(&chars_of(text.as_str())).len() > 0 {
                            Ok(Command::SessionPrompt { session_id, text })
                        } else {
                            invalid("text is required")
                        }
                    },
                    None => invalid("text is required"),
                },
            },
        )
    } else if str_eq(m, "session.cancel") {
        Some(
            match (param_text(p, "session_id"), param_text(p, "run_id")) {
                (Some(session_id), Some(run_id)) => Ok(Command::SessionCancel { session_id, run_id }),
                _ => invalid("session_id and run_id are required"),
            },
        )
    } else if str_eq(m, "permissions.pending") {
        Some(Ok(Command::PermissionsPending { session_id: param_text(p, "session_id") }))
    } else if str_eq(m, "permissions.history") {
        Some(Ok(Command::PermissionsHistory { session_id: param_text(p, "session_id") }))
    } else if str_eq(m, "permission.resolve") {
        let decision = match param_text(p, "decision") {
            Some(t) => parse_decision(t.as_str()),
            None => None,
        };
        Some(
            match (
                param_text(p, "permission_id"),
                param_text(p, "session_id"),
                param_text(p, "run_id"),
                decision,
            ) {
                (Some(permission_id), Some(session_id), Some(run_id), Some(decision)) => Ok(
                    Command::PermissionResolve { permission_id, session_id, run_id, decision },
                ),
                _ => invalid("permission_id, session_id, run_id, and a valid decision are required"),
            },
        )
    } else if str_eq(m, "stream.start") {
        let count = clamp_u64(
            match param_u64(p, "count") {
                Some(n) => n,
                None => 20,
            },
            1,
            100,
        );
        let interval_ms = clamp_u64(
            match param_u64(p, "interval_ms") {
                Some(n) => n,
                None => 150,
            },
            1,
            5000,
        );
        Some(Ok(Command::StreamStart { count, interval_ms }))
    } else if str_eq(m, "stream.cancel") {
        Some(
            match param_text(p, "target_request_id") {
                Some(target_request_id) => Ok(Command::StreamCancel { target_request_id }),
                None => invalid("target_request_id is required"),
            },
        )
    } else {
        None
    }
}

/// The decimal text of a `u16`.
fn u16_text(n: u16) -> (r: String)
    ensures
        r@ == decimal(n as nat),
{
    let digits = u64_decimal(n as u64);
    string_of(&digits)
}

/// Decodes a request into the command it asks for: a peer with another
/// major protocol version is refused with `incompatible_version`, an
/// unknown method with `method_not_found`, and missing or invalid
/// parameters with `invalid_params`.
pub fn route(request: &Request) -> (r: Result<Command, ErrorReply>)
    ensures
        routed(request.version, request.method@, request.params, r),
{
    proof {
        lemma_method_names();
    }
    if !ProtocolVersion::current().is_compatible_with(request.version) {
        let mut m = owned("Protocol major ");
        m.append(u16_text(request.version.major).as_str());
        m.append(" is not supported; expected ");
        m.append(u16_text(IPC_PROTOCOL_MAJOR).as_str());
        return Err(ErrorReply { code: owned("incompatible_version"), message: m });
    }
    let m = request.method.as_str();
    let p = &request.params;
    if let Some(r) = route_core(m) {
        return r;
    }
    if let Some(r) = route_workspace(m, p) {
        return r;
    }
    if let Some(r) = route_capture(m, p) {
        return r;
    }
    if let Some(r) = route_session(m, p) {
        return r;
    }
    let mut message = owned("Unknown method: ");
    message.append(m);
    Err(ErrorReply { code: owned("method_not_found"), message })
}


// ---------------------------------------------------------------------------
// Envelopes
// ---------------------------------------------------------------------------

/// `v` is the number `n`.
pub open spec fn is_number(v: JsonValue, n: u64) -> bool {
    v matches JsonValue::Number(x) && x.text@ == decimal(n as nat) && x.unsigned == Some(n)
}

/// `v` is the string `t`.
pub open spec fn is_text(v: JsonValue, t: Seq<char>) -> bool {
    v matches JsonValue::String(s) && s@ == t
}

/// `v` is an object whose members are named `keys`, in order.
pub open spec fn has_keys(v: JsonValue, keys: Seq<Seq<char>>) -> bool {
    v matches JsonValue::Object(m) && m@.len() == keys.len() && forall|i: int|
        0 <= i < keys.len() ==> #[trigger] m@[i].0@ == keys[i]
}

/// The value of member `i` of an object.
pub open spec fn member_at(v: JsonValue, i: int) -> JsonValue {
    match v {
        JsonValue::Object(m) => m@[i].1,
        _ => JsonValue::Null,
    }
}

/// `v` is the protocol version `pv`: `{"major": .., "minor": ..}`.
pub open spec fn is_version(v: JsonValue, pv: ProtocolVersion) -> bool {
    has_keys(v, seq!["major"@, "minor"@]) && is_number(member_at(v, 0), pv.major as u64)
        && is_number(member_at(v, 1), pv.minor as u64)
}

/// `v` is a success response to request `id` with `result`.
pub open spec fn is_success(v: JsonValue, id: Seq<char>, result: JsonValue) -> bool {
    &&& has_keys(v, seq!["version"@, "id"@, "result"@])
    &&& is_version(member_at(v, 0), current_version())
    &&& is_text(member_at(v, 1), id)
    &&& member_at(v, 2) == result
}

/// `v` is an error response to request `id` (`null` where the request had
/// none) with `code` and `message`.
pub open spec fn is_error(v: JsonValue, id: Option<Seq<char>>, code: Seq<char>, message: Seq<char>) -> bool {
    &&& has_keys(v, seq!["version"@, "id"@, "error"@])
    &&& is_version(member_at(v, 0), current_version())
    &&& match id {
        Some(t) => is_text(member_at(v, 1), t),
        None => member_at(v, 1) is Null,
    }
    &&& has_keys(member_at(v, 2), seq!["code"@, "message"@])
    &&& is_text(member_at(member_at(v, 2), 0), code)
    &&& is_text(member_at(member_at(v, 2), 1), message)
}

/// `v` is the event `name` with `data`.
pub open spec fn is_event(v: JsonValue, name: Seq<char>, data: JsonValue) -> bool {
    &&& has_keys(v, seq!["version"@, "event"@, "data"@])
    &&& is_version(member_at(v, 0), current_version())
    &&& is_text(member_at(v, 1), name)
    &&& member_at(v, 2) == data
}

fn number(n: u64) -> (r: JsonValue)
    ensures
        is_number(r, n),
{
    JsonValue::from_u64(n)
}

fn text(t: &str) -> (r: JsonValue)
    ensures
        is_text(r, t@),
{
    JsonValue::from_str(t)
}

/// The protocol version as JSON.
pub fn version_json(version: ProtocolVersion) -> (r: JsonValue)
    ensures
        is_version(r, version),
{
    let mut m: Vec<(String, JsonValue)> = Vec::new();
    m.push((owned("major"), number(version.major as u64)));
    m.push((owned("minor"), number(version.minor as u64)));
    let r = JsonValue::Object(m);
    assert(has_keys(r, seq!["major"@, "minor"@]));
    r
}

/// A success response to request `id`.
pub fn success_response(id: &str, result: JsonValue) -> (r: JsonValue)
    ensures
        is_success(r, id@, result),
{
    let ghost res = result;
    let mut m: Vec<(String, JsonValue)> = Vec::new();
    m.push((owned("version"), version_json(ProtocolVersion::current())));
    m.push((owned("id"), text(id)));
    m.push((owned("result"), result));
    let r = JsonValue::Object(m);
    assert(has_keys(r, seq!["version"@, "id"@, "result"@]));
    assert(member_at(r, 2) == res);
    r
}

/// An error response to request `id`, or to an unreadable request.
pub fn error_response(id: Option<&str>, code: &str, message: &str) -> (r: JsonValue)
    ensures
        is_error(
            r,
            match id {
                Some(t) => Some(t@),
                None => None,
            },
            code@,
            message@,
        ),
{
    let mut e: Vec<(String, JsonValue)> = Vec::new();
    e.push((owned("code"), text(code)));
    e.push((owned("message"), text(message)));
    let error = JsonValue::Object(e);
    assert(has_keys(error, seq!["code"@, "message"@]));
    let mut m: Vec<(String, JsonValue)> = Vec::new();
    m.push((owned("version"), version_json(ProtocolVersion::current())));
    m.push(
        (
            owned("id"),
            match id {
                Some(t) => text(t),
                None => JsonValue::Null,
            },
        ),
    );
    m.push((owned("error"), error));
    let r = JsonValue::Object(m);
    assert(has_keys(r, seq!["version"@, "id"@, "error"@]));
    r
}

/// The answer to a refused request.
pub fn refusal(id: Option<&str>, reply: &ErrorReply) -> (r: JsonValue)
    ensures
        is_error(
            r,
            match id {
                Some(t) => Some(t@),
                None => None,
            },
            reply.code@,
            reply.message@,
        ),
{
    error_response(id, reply.code.as_str(), reply.message.as_str())
}

/// An event named `name` carrying `data`.
pub fn event(name: &str, data: JsonValue) -> (r: JsonValue)
    ensures
        is_event(r, name@, data),
{
    let ghost d = data;
    let mut m: Vec<(String, JsonValue)> = Vec::new();
    m.push((owned("version"), version_json(ProtocolVersion::current())));
    m.push((owned("event"), text(name)));
    m.push((owned("data"), data));
    let r = JsonValue::Object(m);
    assert(has_keys(r, seq!["version"@, "event"@, "data"@]));
    assert(member_at(r, 2) == d);
    r
}

/// The result of `core.hello`: the core's name and version and the
/// protocol version.
pub fn hello_result(core_version: &str) -> (r: JsonValue)
    ensures
        has_keys(r, seq!["name"@, "core_version"@, "protocol_version"@]),
        is_text(member_at(r, 0), "vela-core"@),
        is_text(member_at(r, 1), core_version@),
        is_version(member_at(r, 2), current_version()),
{
    let mut m: Vec<(String, JsonValue)> = Vec::new();
    m.push((owned("name"), text("vela-core")));
    m.push((owned("core_version"), text(core_version)));
    m.push((owned("protocol_version"), version_json(ProtocolVersion::current())));
    let r = JsonValue::Object(m);
    assert(has_keys(r, seq!["name"@, "core_version"@, "protocol_version"@]));
    r
}

/// The result of `core.health`.
pub fn health_result() -> (r: JsonValue)
    ensures
        has_keys(r, seq!["status"@]),
        is_text(member_at(r, 0), "healthy"@),
{
    let mut m: Vec<(String, JsonValue)> = Vec::new();
    m.push((owned("status"), text("healthy")));
    let r = JsonValue::Object(m);
    assert(has_keys(r, seq!["status"@]));
    r
}

/// The result of a cancellation request: whether a cancellation was sent.
pub fn cancel_result(requested: bool) -> (r: JsonValue)
    ensures
        has_keys(r, seq!["cancel_requested"@]),
        member_at(r, 0) == JsonValue::Bool(requested),
{
    let mut m: Vec<(String, JsonValue)> = Vec::new();
    m.push((owned("cancel_requested"), JsonValue::Bool(requested)));
    let r = JsonValue::Object(m);
    assert(has_keys(r, seq!["cancel_requested"@]));
    r
}


// ---------------------------------------------------------------------------
// Deterministic streams
// ---------------------------------------------------------------------------

/// An event of a deterministic stream.
#[derive(Debug, Clone, Copy, PartialEq, Eq, Structural)]
pub enum StreamEvent {
    /// Chunk number `sequence`, counted from 1.
    Chunk { sequence: u64 },
    /// The stream ran to its end after `emitted` chunks.
    Completed { emitted: u64 },
    /// The stream was cancelled after `emitted` chunks.
    Cancelled { emitted: u64 },
}

/// An event that ends a stream.
pub open spec fn ends_stream(e: StreamEvent) -> bool {
    e is Completed || e is Cancelled
}

/// What happened while a stream waited for its next chunk.
#[derive(Debug, Clone, Copy, PartialEq, Eq, Structural)]
pub enum StreamInput {
    /// The interval passed: the next chunk is due.
    Tick,
    /// The cancellation signal changed; `true` cancels the stream, anything
    /// else skips the chunk that was due.
    Signal(bool),
}

/// A deterministic stream of `count` chunks: the next chunk number, how
/// many chunks were sent, and whether the stream has ended.
#[derive(Debug, Clone, Copy, PartialEq, Eq, Structural)]
pub struct StreamRun {
    pub count: u64,
    pub next: u64,
    pub emitted: u64,
    pub ended: bool,
}

/// A consistent stream: chunk numbers run from 1 to `count`, and a stream
/// that has not ended has a chunk due.
pub open spec fn stream_wf(s: StreamRun) -> bool {
    &&& 1 <= s.next <= s.count + 1
    &&& s.count < u64::MAX
    &&& s.emitted < s.next
    &&& (!s.ended ==> s.next <= s.count)
}

/// The stream after `input`, and the events it sends.
pub open spec fn advanced(s: StreamRun, input: StreamInput) -> (StreamRun, Seq<StreamEvent>) {
    if s.ended {
        (s, Seq::empty())
    } else {
        match input {
            StreamInput::Tick => {
                let t = StreamRun { next: (s.next + 1) as u64, emitted: s.next, ..s };
                if t.next > s.count {
                    (
                        StreamRun { ended: true, ..t },
                        seq![
                            StreamEvent::Chunk { sequence: s.next },
                            StreamEvent::Completed { emitted: s.next },
                        ],
                    )
                } else {
                    (t, seq![StreamEvent::Chunk { sequence: s.next }])
                }
            },
            StreamInput::Signal(true) => (
                StreamRun { ended: true, ..s },
                seq![StreamEvent::Cancelled { emitted: s.emitted }],
            ),
            StreamInput::Signal(false) => {
                let t = StreamRun { next: (s.next + 1) as u64, ..s };
                if t.next > s.count {
                    (StreamRun { ended: true, ..t }, seq![StreamEvent::Completed { emitted: s.emitted }])
                } else {
                    (t, Seq::empty())
                }
            },
        }
    }
}

impl StreamRun {
    /// A stream of `count` chunks that has sent nothing.
    pub fn new(count: u64) -> (r: Self)
        requires
            1 <= count < u64::MAX,
        ensures
            r == (StreamRun { count, next: 1, emitted: 0, ended: false }),
            stream_wf(r),
    {
        StreamRun { count, next: 1, emitted: 0, ended: false }
    }

    /// Takes in what happened and returns the events to send, in order.
    pub fn advance(&mut self, input: StreamInput) -> (out: Vec<StreamEvent>)
        requires
            stream_wf(*old(self)),
        ensures
            (*final(self), out@) == advanced(*old(self), input),
            stream_wf(*final(self)),
    {
        let mut out: Vec<StreamEvent> = Vec::new();
        if self.ended {
            return out;
        }
        match input {
            StreamInput::Tick => {
                let sequence = self.next;
                out.push(StreamEvent::Chunk { sequence });
                self.emitted = sequence;
                self.next = sequence + 1;
                if self.next > self.count {
                    self.ended = true;
                    out.push(StreamEvent::Completed { emitted: sequence });
                }
            },
            StreamInput::Signal(cancelled) => {
                if cancelled {
                    self.ended = true;
                    out.push(StreamEvent::Cancelled { emitted: self.emitted });
                } else {
                    self.next = self.next + 1;
                    if self.next > self.count {
                        self.ended = true;
                        out.push(StreamEvent::Completed { emitted: self.emitted });
                    }
                }
            },
        }
        proof {
            let (t, evs) = advanced(*old(self), input);
            assert(out@ =~= evs);
        }
        out
    }

    /// Stops the stream without a terminal event, as when the client can no
    /// longer be written to.
    pub fn abort(&mut self)
        ensures
            *final(self) == (StreamRun { ended: true, ..*old(self) }),
    {
        self.ended = true;
    }

    /// Whether the stream has ended.
    pub fn is_ended(&self) -> (r: bool)
        ensures
            r == self.ended,
    {
        self.ended
    }
}

/// The events a stream sends for a series of inputs.
pub open spec fn stream_events(s: StreamRun, inputs: Seq<StreamInput>) -> Seq<StreamEvent>
    decreases inputs.len(),
{
    if inputs.len() == 0 {
        Seq::empty()
    } else {
        advanced(s, inputs[0]).1 + stream_events(advanced(s, inputs[0]).0, inputs.drop_first())
    }
}

/// The stream after a series of inputs.
pub open spec fn stream_after(s: StreamRun, inputs: Seq<StreamInput>) -> StreamRun
    decreases inputs.len(),
{
    if inputs.len() == 0 {
        s
    } else {
        stream_after(advanced(s, inputs[0]).0, inputs.drop_first())
    }
}

/// The chunk number of a chunk event.
pub open spec fn chunk_number(e: StreamEvent) -> u64 {
    match e {
        StreamEvent::Chunk { sequence } => sequence,
        _ => 0,
    }
}

/// What a stream has sent so far is in order: chunks with increasing
/// numbers above `floor`, each at most `last`, and then at most one terminal
/// event, which is the last event and reports the last chunk number sent.
pub open spec fn orderly(evs: Seq<StreamEvent>, floor: u64, last: u64) -> bool {
    &&& forall|i: int| 0 <= i < evs.len() && ends_stream(#[trigger] evs[i]) ==> i == evs.len() - 1
    &&& forall|i: int, j: int|
        0 <= i < j < evs.len() && (#[trigger] evs[i]) is Chunk && (#[trigger] evs[j]) is Chunk
            ==> chunk_number(evs[i]) < chunk_number(evs[j])
    &&& forall|i: int| 0 <= i < evs.len() && (#[trigger] evs[i]) is Chunk ==> floor < chunk_number(
        evs[i],
    ) <= last
    &&& forall|i: int| 0 <= i < evs.len() && ends_stream(#[trigger] evs[i]) ==> reported(evs[i]) == last
}

/// The chunk count a terminal event reports.
pub open spec fn reported(e: StreamEvent) -> u64 {
    match e {
        StreamEvent::Completed { emitted } => emitted,
        StreamEvent::Cancelled { emitted } => emitted,
        _ => 0,
    }
}

proof fn lemma_ended_is_quiet(s: StreamRun, inputs: Seq<StreamInput>)
    requires
        s.ended,
    ensures
        stream_events(s, inputs) == Seq::<StreamEvent>::empty(),
        stream_after(s, inputs) == s,
    decreases inputs.len(),
{
    if inputs.len() > 0 {
        lemma_ended_is_quiet(s, inputs.drop_first());
        assert(Seq::<StreamEvent>::empty() + Seq::<StreamEvent>::empty() =~= Seq::<StreamEvent>::empty());
    }
}

proof fn lemma_stream_orderly(s: StreamRun, inputs: Seq<StreamInput>)
    requires
        stream_wf(s),
    ensures
        orderly(stream_events(s, inputs), s.emitted, stream_after(s, inputs).emitted),
        s.emitted <= stream_after(s, inputs).emitted,
        stream_wf(stream_after(s, inputs)),
        stream_after(s, inputs).count == s.count,
        s.ended ==> stream_after(s, inputs) == s,
        stream_events(s, inputs).len() > 0 && ends_stream(stream_events(s, inputs).last())
            ==> stream_after(s, inputs).ended,
    decreases inputs.len(),
{
    if inputs.len() == 0 {
        return;
    }
    if s.ended {
        lemma_ended_is_quiet(s, inputs);
        return;
    }
    let (t, first) = advanced(s, inputs[0]);
    lemma_stream_orderly(t, inputs.drop_first());
    let rest = stream_events(t, inputs.drop_first());
    let all = stream_events(s, inputs);
    let end = stream_after(s, inputs);
    assert(all == first + rest);
    assert(end == stream_after(t, inputs.drop_first()));
    if t.ended {
        lemma_ended_is_quiet(t, inputs.drop_first());
        assert(rest =~= Seq::<StreamEvent>::empty());
        assert(all =~= first);
    } else {
        assert(first.len() <= 1);
        assert(first.len() == 1 ==> first[0] is Chunk);
    }
    assert forall|i: int| 0 <= i < all.len() && ends_stream(#[trigger] all[i]) implies i == all.len()
        - 1 by {
        if i >= first.len() {
            assert(all[i] == rest[i - first.len()]);
        }
    }
    assert forall|i: int, j: int|
        0 <= i < j < all.len() && (#[trigger] all[i]) is Chunk && (#[trigger] all[j]) is Chunk
            implies chunk_number(all[i]) < chunk_number(all[j]) by {
        if j < first.len() {
        } else if i < first.len() {
            assert(all[j] == rest[j - first.len()]);
            assert(all[i] == first[i]);
        } else {
            assert(all[i] == rest[i - first.len()]);
            assert(all[j] == rest[j - first.len()]);
        }
    }
    assert forall|i: int| 0 <= i < all.len() && (#[trigger] all[i]) is Chunk implies s.emitted
        < chunk_number(all[i]) <= end.emitted by {
        if i >= first.len() {
            assert(all[i] == rest[i - first.len()]);
        }
    }
    assert forall|i: int| 0 <= i < all.len() && ends_stream(#[trigger] all[i]) implies reported(all[i])
        == end.emitted by {
        if i >= first.len() {
            assert(all[i] == rest[i - first.len()]);
        }
    }
    if all.len() > 0 && ends_stream(all.last()) {
        if rest.len() > 0 {
            assert(all.last() == rest.last());
        }
    }
}

/// Whatever a stream is told, it sends its chunks in increasing order, each
/// at most once, then at most one terminal event, and nothing after it; the
/// terminal event reports the number of the last chunk sent (0 if none).
pub proof fn law_a_stream_ends_at_most_once(count: u64, inputs: Seq<StreamInput>)
    requires
        1 <= count < u64::MAX,
    ensures
        orderly(
            stream_events(StreamRun { count, next: 1, emitted: 0, ended: false }, inputs),
            0,
            stream_after(StreamRun { count, next: 1, emitted: 0, ended: false }, inputs).emitted,
        ),
{
    lemma_stream_orderly(StreamRun { count, next: 1, emitted: 0, ended: false }, inputs);
}

/// `n` ticks.
pub open spec fn ticks(n: nat) -> Seq<StreamInput> {
    Seq::new(n, |i: int| StreamInput::Tick)
}

proof fn lemma_ticks_send_chunks(s: StreamRun, n: nat)
    requires
        stream_wf(s),
        !s.ended,
        s.next + n <= s.count + 1,
    ensures
        stream_events(s, ticks(n)) == Seq::new(n, |i: int| StreamEvent::Chunk { sequence: (s.next + i) as u64 })
            + if s.next + n == s.count + 1 && n > 0 {
            seq![StreamEvent::Completed { emitted: s.count }]
        } else {
            Seq::<StreamEvent>::empty()
        },
    decreases n,
{
    let expected = Seq::new(n, |i: int| StreamEvent::Chunk { sequence: (s.next + i) as u64 })
        + if s.next + n == s.count + 1 && n > 0 {
        seq![StreamEvent::Completed { emitted: s.count }]
    } else {
        Seq::<StreamEvent>::empty()
    };
    if n == 0 {
        assert(stream_events(s, ticks(n)) =~= expected);
        return;
    }
    let (t, first) = advanced(s, StreamInput::Tick);
    assert(ticks(n)[0] == StreamInput::Tick);
    assert(ticks(n).drop_first() =~= ticks((n - 1) as nat));
    if s.next + 1 > s.count {
        assert(n == 1);
        lemma_ended_is_quiet(t, ticks(0));
        assert(stream_events(s, ticks(n)) =~= first);
        assert(stream_events(s, ticks(n)) =~= expected);
    } else {
        lemma_ticks_send_chunks(t, (n - 1) as nat);
        assert(stream_events(s, ticks(n)) =~= expected);
    }
}

/// A stream that is never cancelled sends chunks 1 to `count` in order,
/// then one `stream.completed` that reports `count` chunks.
pub proof fn law_an_uncancelled_stream_sends_every_chunk(count: u64)
    requires
        1 <= count < u64::MAX,
    ensures
        stream_events(StreamRun { count, next: 1, emitted: 0, ended: false }, ticks(count as nat))
            == Seq::new(count as nat, |i: int| StreamEvent::Chunk { sequence: (i + 1) as u64 }).push(
            StreamEvent::Completed { emitted: count },
        ),
{
    let s = StreamRun { count, next: 1, emitted: 0, ended: false };
    lemma_ticks_send_chunks(s, count as nat);
    assert(stream_events(s, ticks(count as nat)) =~= Seq::new(
        count as nat,
        |i: int| StreamEvent::Chunk { sequence: (i + 1) as u64 },
    ).push(StreamEvent::Completed { emitted: count }));
}

/// The wire form of a stream event for the stream of request `request_id`.
pub fn stream_event_json(request_id: &str, e: StreamEvent) -> (r: JsonValue)
    ensures
        match e {
            StreamEvent::Chunk { sequence } => has_keys(member_at(r, 2), seq!["request_id"@, "sequence"@, "text"@])
                && is_event(r, "stream.chunk"@, member_at(r, 2)) && is_text(
                member_at(member_at(r, 2), 0),
                request_id@,
            ) && is_number(member_at(member_at(r, 2), 1), sequence) && is_text(
                member_at(member_at(r, 2), 2),
                "Deterministic chunk "@ + decimal(sequence as nat),
            ),
            StreamEvent::Completed { emitted } => has_keys(member_at(r, 2), seq!["request_id"@, "emitted"@])
                && is_event(r, "stream.completed"@, member_at(r, 2)) && is_text(
                member_at(member_at(r, 2), 0),
                request_id@,
            ) && is_number(member_at(member_at(r, 2), 1), emitted),
            StreamEvent::Cancelled { emitted } => has_keys(member_at(r, 2), seq!["request_id"@, "emitted"@])
                && is_event(r, "stream.cancelled"@, member_at(r, 2)) && is_text(
                member_at(member_at(r, 2), 0),
                request_id@,
            ) && is_number(member_at(member_at(r, 2), 1), emitted),
        },
{
    let mut data: Vec<(String, JsonValue)> = Vec::new();
    data.push((owned("request_id"), text(request_id)));
    match e {
        StreamEvent::Chunk { sequence } => {
            data.push((owned("sequence"), number(sequence)));
            let mut t = owned("Deterministic chunk ");
            let digits = u64_decimal(sequence);
            t.append(string_of(&digits).as_str());
            data.push((owned("text"), JsonValue::String(t)));
            let d = JsonValue::Object(data);
            assert(has_keys(d, seq!["request_id"@, "sequence"@, "text"@]));
            event("stream.chunk", d)
        },
        StreamEvent::Completed { emitted } => {
            data.push((owned("emitted"), number(emitted)));
            let d = JsonValue::Object(data);
            assert(has_keys(d, seq!["request_id"@, "emitted"@]));
            event("stream.completed", d)
        },
        StreamEvent::Cancelled { emitted } => {
            data.push((owned("emitted"), number(emitted)));
            let d = JsonValue::Object(data);
            assert(has_keys(d, seq!["request_id"@, "emitted"@]));
            event("stream.cancelled", d)
        },
    }
}

/// The result of `stream.start`: accepted, with the chunk count.
pub fn stream_accepted(count: u64) -> (r: JsonValue)
    ensures
        has_keys(r, seq!["accepted"@, "count"@]),
        member_at(r, 0) == JsonValue::Bool(true),
        is_number(member_at(r, 1), count),
{
    let mut m: Vec<(String, JsonValue)> = Vec::new();
    m.push((owned("accepted"), JsonValue::Bool(true)));
    m.push((owned("count"), number(count)));
    let r = JsonValue::Object(m);
    assert(has_keys(r, seq!["accepted"@, "count"@]));
    r
}

/// The request IDs of the streams a connection is running, each once.
pub struct ActiveStreams {
    ids: Vec<String>,
}

impl ActiveStreams {
    /// The IDs in use.
    pub closed spec fn ids(&self) -> Set<Seq<char>> {
        views_of(self.ids@).to_set()
    }

    /// No ID is held twice.
    pub closed spec fn wf(&self) -> bool {
        forall|i: int, j: int|
            0 <= i < j < self.ids@.len() ==> (#[trigger] self.ids@[i])@ != (#[trigger] self.ids@[j])@
    }

    /// No streams.
    pub fn new() -> (r: Self)
        ensures
            r.wf(),
            r.ids() == Set::<Seq<char>>::empty(),
    {
        let r = ActiveStreams { ids: Vec::new() };
        assert(r.ids() =~= Set::<Seq<char>>::empty());
        r
    }

    /// Whether a stream uses `id`.
    pub fn contains(&self, id: &str) -> (r: bool)
        ensures
            r == self.ids().contains(id@),
    {
        let mut i: usize = 0;
        while i < self.ids.len()
            invariant
                i <= self.ids.len(),
                forall|k: int| 0 <= k < i ==> self.ids@[k]@ != id@,
            decreases self.ids.len() - i,
        {
            if str_eq(self.ids[i].as_str(), id) {
assert(views_of(self.ids@)[i as int] == id@);
                return true;
            }
            i = i + 1;
        }
        proof {
            if self.ids().contains(id@) {
                let v = views_of(self.ids@);
                let k = choose|k: int| 0 <= k < v.len() && v[k] == id@;
                assert(self.ids@[k]@ == id@);
            }
        }
        false
    }

    /// Starts a stream for `id`; refused, with nothing changed, when a
    /// stream already uses it.
    pub fn start(&mut self, id: &str) -> (r: Result<(), ErrorReply>)
        requires
            old(self).wf(),
        ensures
            final(self).wf(),
            old(self).ids().contains(id@) ==> (r matches Err(e) && e.code@ == "duplicate_request"@
                && e.message@ == "A stream already uses this request ID"@ && final(self).ids()
                == old(self).ids()),
            !old(self).ids().contains(id@) ==> (r is Ok && final(self).ids() == old(self).ids().insert(
                id@,
            )),
    {
        if self.contains(id) {
            return Err(
                ErrorReply {
                    code: owned("duplicate_request"),
                    message: owned("A stream already uses this request ID"),
                },
            );
        }
        let ghost before = self.ids@;
        self.ids.push(owned(id));
        proof {
            let v = views_of(before);
            let w = views_of(self.ids@);
            assert(w =~= v.push(id@));
            assert forall|x: Seq<char>| #[trigger] w.to_set().contains(x) == v.to_set().insert(id@).contains(
                x,
            ) by {
                if v.contains(x) {
                    let k = choose|k: int| 0 <= k < v.len() && v[k] == x;
                    assert(w[k] == x);
                }
                if x == id@ {
                    assert(w[v.len() as int] == x);
                }
                if w.contains(x) {
                    let k = choose|k: int| 0 <= k < w.len() && w[k] == x;
                    if k < v.len() {
                        assert(v[k] == x);
                    }
                }
            }
            assert(w.to_set() =~= v.to_set().insert(id@));
            assert forall|i: int, j: int| 0 <= i < j < self.ids@.len() implies (
            #[trigger] self.ids@[i])@ != (#[trigger] self.ids@[j])@ by {
                if j == before.len() {
                    assert(v[i] == before[i]@);
                    assert(v.contains(before[i]@));
                }
            }
        }
        Ok(())
    }

    /// Forgets the stream with `id`, if there is one.
    pub fn remove(&mut self, id: &str)
        requires
            old(self).wf(),
        ensures
            final(self).wf(),
            final(self).ids() == old(self).ids().remove(id@),
    {
        let ghost before = self.ids@;
        let mut kept: Vec<String> = Vec::new();
        let mut i: usize = 0;
        while i < self.ids.len()
            invariant
                self.ids@ == before,
                i <= before.len(),
                forall|a: int, b: int|
                    0 <= a < b < before.len() ==> (#[trigger] before[a])@ != (#[trigger] before[b])@,
                forall|x: Seq<char>| #[trigger] views_of(kept@).contains(x) <==> (
                x != id@ && views_of(before.take(i as int)).contains(x)),
                forall|a: int, b: int|
                    0 <= a < b < kept@.len() ==> (#[trigger] kept@[a])@ != (#[trigger] kept@[b])@,
            decreases before.len() - i,
        {
            let ghost kv = views_of(kept@);
            let ghost pv = views_of(before.take(i as int));
            let ghost nv = views_of(before.take(i + 1));
            assert(nv =~= pv.push(before[i as int]@));
            if !str_eq(self.ids[i].as_str(), id) {
                kept.push(copy_string(&self.ids[i]));
                let ghost kv2 = views_of(kept@);
                assert(kv2 =~= kv.push(before[i as int]@));
                assert forall|x: Seq<char>| #[trigger] kv2.contains(x) <==> (x != id@ && nv.contains(x)) by {
                    if kv2.contains(x) {
                        let k = choose|k: int| 0 <= k < kv2.len() && kv2[k] == x;
                        if k < kv.len() {
                            assert(kv[k] == x);
                            assert(kv.contains(x));
                            let j = choose|j: int| 0 <= j < pv.len() && pv[j] == x;
                            assert(nv[j] == x);
                        } else {
                            assert(nv[i as int] == x);
                        }
                    }
                    if x != id@ && nv.contains(x) {
                        let k = choose|k: int| 0 <= k < nv.len() && nv[k] == x;
                        if k < pv.len() {
                            assert(pv[k] == x);
                            assert(pv.contains(x));
                            assert(kv.contains(x));
                            let j = choose|j: int| 0 <= j < kv.len() && kv[j] == x;
                            assert(kv2[j] == x);
                        } else {
                            assert(kv2[kv.len() as int] == x);
                        }
                    }
                }
                assert forall|a: int, b: int| 0 <= a < b < kept@.len() implies (
                #[trigger] kept@[a])@ != (#[trigger] kept@[b])@ by {
                    if b == kv.len() {
                        assert(kv[a] == kept@[a]@);
                        if kept@[a]@ == before[i as int]@ {
                            assert(kv.contains(before[i as int]@));
                            let k = choose|k: int| 0 <= k < pv.len() && pv[k] == before[i as int]@;
                            assert(before[k]@ == before[i as int]@);
                        }
                    }
                }
            } else {
                assert forall|x: Seq<char>| #[trigger] kv.contains(x) <==> (x != id@ && nv.contains(x)) by {
                    if kv.contains(x) {
                        let j = choose|j: int| 0 <= j < pv.len() && pv[j] == x;
                        assert(nv[j] == x);
                    }
                    if x != id@ && nv.contains(x) {
                        let k = choose|k: int| 0 <= k < nv.len() && nv[k] == x;
                        if k < pv.len() {
                            assert(pv[k] == x);
                            assert(pv.contains(x));
                        }
                    }
                }
            }
            i = i + 1;
        }
        assert(before.take(before.len() as int) =~= before);
        self.ids = kept;
        proof {
            let v = views_of(before);
            let w = views_of(self.ids@);
            assert(w.to_set() =~= v.to_set().remove(id@));
        }
    }

    /// Forgets every stream and returns their IDs, to cancel them all.
    pub fn drain(&mut self) -> (r: Vec<String>)
        ensures
            final(self).wf(),
            final(self).ids() == Set::<Seq<char>>::empty(),
            views_of(r@).to_set() == old(self).ids(),
    {
        let mut r: Vec<String> = Vec::new();
        std::mem::swap(&mut r, &mut self.ids);
        assert(self.ids() =~= Set::<Seq<char>>::empty());
        r
    }
}


/// When a capture started: the time the request gives, else now.
pub fn started_at_or_now(given: Option<u64>) -> (r: u64)
    ensures
        given matches Some(t) ==> r == t,
{
    match given {
        Some(t) => t,
        None => crate::clock::now_ms(),
    }
}

} // verus!
