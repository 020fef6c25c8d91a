//! The ACP boundary: launch specifications, initialization summaries and
//! failures, and the normalization of ACP wire values into Vela-owned events.

use vstd::prelude::*;
use crate::text::{copy_string, owned, str_eq, views_of};
use crate::session::{AgentEventPayload, PlanEntry, ends_run, plan_view};
use crate::order::{lex_lt, lemma_lex_irreflexive, lemma_lex_transitive};
use crate::json::{
    JsonValue, array_items, deref_opt, either, get_either, get_in, get_opt, items_of, json_get,
    str_copy, str_of, u64_of, u64_value,
};

verus! {

/// How to start an ACP adapter process: the executable, its arguments, the
/// environment variables set for it, and the session mode that a session
/// must be switched to before it is ready.
#[derive(Debug, Clone, PartialEq, Eq)]
pub struct AcpLaunchSpec {
    pub executable: String,
    pub arguments: Vec<String>,
    pub environment: Vec<(String, String)>,
    pub enforced_session_mode: String,
}

/// The text of name-value pairs.
pub open spec fn pair_views(s: Seq<(String, String)>) -> Seq<(Seq<char>, Seq<char>)> {
    s.map_values(|p: (String, String)| (p.0@, p.1@))
}

/// The mathematical view of a launch specification.
pub struct LaunchView {
    pub executable: Seq<char>,
    pub arguments: Seq<Seq<char>>,
    pub environment: Seq<(Seq<char>, Seq<char>)>,
    pub enforced_session_mode: Seq<char>,
}

impl View for AcpLaunchSpec {
    type V = LaunchView;

    open spec fn view(&self) -> LaunchView {
        LaunchView {
            executable: self.executable@,
            arguments: views_of(self.arguments@),
            environment: pair_views(self.environment@),
            enforced_session_mode: self.enforced_session_mode@,
        }
    }
}

/// An exact copy of name-value pairs.
pub fn copy_pairs(v: &Vec<(String, String)>) -> (c: Vec<(String, String)>)
    ensures
        c@ == v@,
{
    let mut c: Vec<(String, String)> = Vec::new();
    let mut i: usize = 0;
    while i < v.len()
        invariant
            i <= v.len(),
            c@ == v@.subrange(0, i as int),
        decreases v.len() - i,
    {
        let (name, value) = &v[i];
        c.push((copy_string(name), copy_string(value)));
        assert(c@ =~= v@.subrange(0, i + 1));
        i = i + 1;
    }
    assert(v@.subrange(0, v.len() as int) =~= v@);
    c
}

/// What an adapter reported when it was initialized.
#[derive(Debug, Clone, PartialEq, Eq)]
pub struct InitializationSummary {
    pub protocol_version: String,
    pub agent_name: Option<String>,
    pub agent_version: Option<String>,
    pub capabilities: Vec<String>,
    pub auth_methods: Vec<String>,
}

/// The text of an optional string.
pub open spec fn opt_text(o: Option<String>) -> Option<Seq<char>> {
    match o {
        Some(s) => Some(s@),
        None => None,
    }
}

/// Why ACP initialization failed.
#[derive(Debug, Clone, PartialEq, Eq)]
pub enum InitializeFailure {
    Timeout,
    Runtime(String),
}

/// The message of an initialization failure.
pub open spec fn failure_text(f: InitializeFailure) -> Seq<char> {
    match f {
        InitializeFailure::Timeout => "ACP initialize timed out"@,
        InitializeFailure::Runtime(m) => m@,
    }
}

impl InitializeFailure {
    /// The message of this failure.
    pub fn message(&self) -> (r: String)
        ensures
            r@ == failure_text(*self),
    {
        match self {
            InitializeFailure::Timeout => owned("ACP initialize timed out"),
            InitializeFailure::Runtime(m) => copy_string(m),
        }
    }
}


/// An optional member that is `true`, or an object, enables a capability.
pub open spec fn truthy(v: Option<JsonValue>) -> bool {
    match v {
        Some(JsonValue::Bool(b)) => b,
        Some(JsonValue::Object(_)) => true,
        _ => false,
    }
}

/// Whether an optional value enables a capability.
pub fn is_truthy(v: Option<&JsonValue>) -> (r: bool)
    ensures
        r == truthy(deref_opt(v)),
{
    match v {
        Some(JsonValue::Bool(b)) => *b,
        Some(JsonValue::Object(_)) => true,
        _ => false,
    }
}

/// The text of a string or number value.
pub open spec fn scalar_text(v: Option<JsonValue>) -> Option<Seq<char>> {
    match v {
        Some(JsonValue::String(s)) => Some(s@),
        Some(JsonValue::Number(n)) => Some(n.text@),
        _ => None,
    }
}

/// The text of an optional string or number value.
pub fn scalar_string(v: Option<&JsonValue>) -> (r: Option<String>)
    ensures
        match r {
            Some(s) => scalar_text(deref_opt(v)) == Some(s@),
            None => scalar_text(deref_opt(v)) is None,
        },
{
    match v {
        Some(JsonValue::String(s)) => Some(copy_string(s)),
        Some(JsonValue::Number(n)) => Some(copy_string(&n.text)),
        _ => None,
    }
}

/// `name` alone when `enabled`, else nothing.
#[verifier::opaque]
pub open spec fn flag(enabled: bool, name: Seq<char>) -> Seq<Seq<char>> {
    if enabled {
        seq![name]
    } else {
        Seq::empty()
    }
}

/// The capability object of an initialize response.
pub open spec fn capability_object(v: JsonValue) -> Option<JsonValue> {
    either(json_get(v, "agentCapabilities"@), json_get(v, "agent_capabilities"@))
}

/// Whether the sub-object `group` of the capability object `c` enables `field`.
pub open spec fn enabled(c: Option<JsonValue>, group: Seq<char>, field: Seq<char>) -> bool {
    truthy(get_in(get_in(c, group), field))
}

/// The Vela capability names that a capability object advertises, in `str`
/// order and each once: the ones every ACP agent has, and those its flags
/// enable.
pub open spec fn capability_names(c: Option<JsonValue>) -> Seq<Seq<char>> {
    flag(enabled(c, "mcpCapabilities"@, "http"@), "mcp.http"@)
        + flag(enabled(c, "mcpCapabilities"@, "sse"@), "mcp.sse"@)
        + flag(enabled(c, "promptCapabilities"@, "audio"@), "prompt.audio"@)
        + flag(enabled(c, "promptCapabilities"@, "embeddedContext"@), "prompt.embedded_context"@)
        + flag(enabled(c, "promptCapabilities"@, "image"@), "prompt.image"@)
        + flag(true, "prompt.text"@)
        + flag(enabled(c, "sessionCapabilities"@, "additionalDirectories"@), "session.additional_directories"@)
        + flag(true, "session.cancel"@)
        + flag(enabled(c, "sessionCapabilities"@, "close"@), "session.close"@)
        + flag(enabled(c, "sessionCapabilities"@, "delete"@), "session.delete"@)
        + flag(enabled(c, "sessionCapabilities"@, "fork"@), "session.fork"@)
        + flag(enabled(c, "sessionCapabilities"@, "list"@), "session.list"@)
        + flag(truthy(get_in(c, "loadSession"@)), "session.load"@)
        + flag(true, "session.new"@)
        + flag(true, "session.prompt"@)
        + flag(enabled(c, "sessionCapabilities"@, "resume"@), "session.resume"@)
        + flag(true, "session.update"@)
}

/// The Vela capability names of an initialize response.
pub open spec fn capabilities_of(v: JsonValue) -> Seq<Seq<char>> {
    capability_names(capability_object(v))
}

/// The authentication method IDs of an array of methods: each method's `id`,
/// or its `name` where it has no `id`, where that is a string.
pub open spec fn auth_ids(methods: Seq<JsonValue>) -> Seq<Seq<char>>
    decreases methods.len(),
{
    if methods.len() == 0 {
        Seq::empty()
    } else {
        let m = methods.last();
        let rest = auth_ids(methods.drop_last());
        match str_of(either(json_get(m, "id"@), json_get(m, "name"@))) {
            Some(id) => rest.push(id),
            None => rest,
        }
    }
}

/// The agent information object of an initialize response.
pub open spec fn agent_info(v: JsonValue) -> Option<JsonValue> {
    either(json_get(v, "agentInfo"@), json_get(v, "agent_info"@))
}

/// The protocol version an initialize response reports, `1` where it
/// reports none.
pub open spec fn protocol_text(v: JsonValue) -> Seq<char> {
    match scalar_text(either(json_get(v, "protocolVersion"@), json_get(v, "protocol_version"@))) {
        Some(t) => t,
        None => "1"@,
    }
}

/// Pushes `name` when `enabled`.
fn push_if(out: &mut Vec<String>, enabled: bool, name: &str)
    ensures
        views_of(final(out)@) == views_of(old(out)@) + flag(enabled, name@),
{
    reveal(flag);
    let ghost before = out@;
    if enabled {
        out.push(owned(name));
        assert(views_of(out@) =~= views_of(before) + flag(enabled, name@));
    } else {
        assert(views_of(out@) =~= views_of(before) + flag(enabled, name@));
    }
}

/// Whether the sub-object `group` of the capabilities enables `field`.
fn group_flag(caps: Option<&JsonValue>, group: &str, field: &str) -> (r: bool)
    ensures
        r == truthy(get_in(get_in(deref_opt(caps), group@), field@)),
{
    is_truthy(get_opt(get_opt(caps, group), field))
}

/// The Vela capability names of a capability object.
fn capability_list(caps: Option<&JsonValue>) -> (r: Vec<String>)
    ensures
        views_of(r@) == capability_names(deref_opt(caps)),
{
    let mut names: Vec<String> = Vec::new();
    push_if(&mut names, group_flag(caps, "mcpCapabilities", "http"), "mcp.http");
    assert(views_of(names@) =~= flag(enabled(deref_opt(caps), "mcpCapabilities"@, "http"@), "mcp.http"@)) by {
        reveal(flag);
    }
    push_if(&mut names, group_flag(caps, "mcpCapabilities", "sse"), "mcp.sse");
    push_if(&mut names, group_flag(caps, "promptCapabilities", "audio"), "prompt.audio");
    push_if(
        &mut names,
        group_flag(caps, "promptCapabilities", "embeddedContext"),
        "prompt.embedded_context",
    );
    push_if(&mut names, group_flag(caps, "promptCapabilities", "image"), "prompt.image");
    push_if(&mut names, true, "prompt.text");
    push_if(
        &mut names,
        group_flag(caps, "sessionCapabilities", "additionalDirectories"),
        "session.additional_directories",
    );
    push_if(&mut names, true, "session.cancel");
    push_if(&mut names, group_flag(caps, "sessionCapabilities", "close"), "session.close");
    push_if(&mut names, group_flag(caps, "sessionCapabilities", "delete"), "session.delete");
    push_if(&mut names, group_flag(caps, "sessionCapabilities", "fork"), "session.fork");
    push_if(&mut names, group_flag(caps, "sessionCapabilities", "list"), "session.list");
    push_if(&mut names, is_truthy(get_opt(caps, "loadSession")), "session.load");
    push_if(&mut names, true, "session.new");
    push_if(&mut names, true, "session.prompt");
    push_if(&mut names, group_flag(caps, "sessionCapabilities", "resume"), "session.resume");
    push_if(&mut names, true, "session.update");
    names
}

/// The method IDs of an authentication method array.
fn auth_methods_of(methods: &Vec<JsonValue>) -> (r: Vec<String>)
    ensures
        views_of(r@) == auth_ids(methods@),
{
    let mut out: Vec<String> = Vec::new();
    let mut i: usize = 0;
    while i < methods.len()
        invariant
            i <= methods.len(),
            views_of(out@) == auth_ids(methods@.take(i as int)),
        decreases methods.len() - i,
    {
        let m = &methods[i];
        let ghost before = out@;
        assert(methods@.take(i + 1).drop_last() =~= methods@.take(i as int));
        assert(methods@.take(i + 1).last() == methods@[i as int]);
        match get_either(Some(m), "id", "name") {
            Some(JsonValue::String(s)) => {
                out.push(copy_string(s));
                assert(views_of(out@) =~= views_of(before).push(s@));
            },
            _ => {},
        }
        i = i + 1;
    }
    assert(methods@.take(methods.len() as int) =~= methods@);
    out
}

/// Normalizes an ACP initialize response into Vela's summary: the protocol
/// version as text, the agent's name and version, the Vela capability names
/// and the authentication method IDs.
pub fn normalize_response(value: &JsonValue) -> (r: InitializationSummary)
    ensures
        r.protocol_version@ == protocol_text(*value),
        opt_text(r.agent_name) == str_of(get_in(agent_info(*value), "name"@)),
        opt_text(r.agent_version) == str_of(get_in(agent_info(*value), "version"@)),
        views_of(r.capabilities@) == capabilities_of(*value),
        views_of(r.auth_methods@) == auth_ids(
            items_of(either(json_get(*value, "authMethods"@), json_get(*value, "auth_methods"@))),
        ),
{
    let root = Some(value);
    let caps = get_either(root, "agentCapabilities", "agent_capabilities");
    let names = capability_list(caps);
    let auth_methods = match array_items(get_either(root, "authMethods", "auth_methods")) {
        Some(methods) => auth_methods_of(methods),
        None => Vec::new(),
    };
    proof {
        if auth_methods@.len() == 0 {
            assert(views_of(auth_methods@) =~= Seq::<Seq<char>>::empty());
        }
    }
    let info = get_either(root, "agentInfo", "agent_info");
    let protocol_version = match scalar_string(
        get_either(root, "protocolVersion", "protocol_version"),
    ) {
        Some(s) => s,
        None => owned("1"),
    };
    InitializationSummary {
        protocol_version,
        agent_name: str_copy(get_opt(info, "name")),
        agent_version: str_copy(get_opt(info, "version")),
        capabilities: names,
        auth_methods,
    }
}


/// The text of the member `field`, empty where it is not a string.
pub open spec fn text_field(v: JsonValue, field: Seq<char>) -> Seq<char> {
    match str_of(json_get(v, field)) {
        Some(s) => s,
        None => Seq::empty(),
    }
}

/// The text of the member `field` of `value`, empty where it is not a string.
pub fn string_field(value: &JsonValue, field: &str) -> (r: String)
    ensures
        r@ == text_field(*value, field@),
{
    match value.get(field) {
        Some(JsonValue::String(s)) => copy_string(s),
        _ => String::new(),
    }
}

/// The plan entries of an array of entry objects.
pub open spec fn plan_of(items: Seq<JsonValue>) -> Seq<(Seq<char>, Seq<char>, Seq<char>)> {
    items.map_values(
        |e: JsonValue| (text_field(e, "content"@), text_field(e, "status"@), text_field(e, "priority"@)),
    )
}

/// The plan entries of an array of entry objects.
fn plan_entries(items: &Vec<JsonValue>) -> (r: Vec<PlanEntry>)
    ensures
        plan_view(r@) == plan_of(items@),
{
    let mut out: Vec<PlanEntry> = Vec::new();
    let mut i: usize = 0;
    while i < items.len()
        invariant
            i <= items.len(),
            out@.len() == i,
            plan_view(out@) == plan_of(items@.take(i as int)),
        decreases items.len() - i,
    {
        let e = &items[i];
        let ghost before = out@;
        out.push(
            PlanEntry {
                content: string_field(e, "content"),
                status: string_field(e, "status"),
                priority: string_field(e, "priority"),
            },
        );
        assert forall|k: int| 0 <= k < i + 1 implies #[trigger] plan_view(out@)[k] == plan_of(
            items@.take(i + 1),
        )[k] by {
            if k < i {
                assert(out@[k] == before[k]);
                assert(plan_view(before)[k] == plan_of(items@.take(i as int))[k]);
                assert(items@.take(i + 1)[k] == items@.take(i as int)[k]);
            }
        }
        assert(plan_view(out@) =~= plan_of(items@.take(i + 1)));
        i = i + 1;
    }
    assert(items@.take(items.len() as int) =~= items@);
    out
}

/// The session update kind of an ACP update notification.
pub open spec fn update_kind(v: JsonValue) -> Option<Seq<char>> {
    str_of(json_get(v, "sessionUpdate"@))
}

/// Normalizes an ACP session update into a Vela payload: agent text,
/// plans, tool calls and their updates, and usage; nothing for any other
/// update, or for a message chunk without text.
pub fn normalize_session_update(value: &JsonValue) -> (r: Option<AgentEventPayload>)
    ensures
        match update_kind(*value) {
            Some(k) => if k == "agent_message_chunk"@ {
                match str_of(get_in(json_get(*value, "content"@), "text"@)) {
                    Some(t) => r matches Some(AgentEventPayload::TextDelta { text }) && text@ == t,
                    None => r is None,
                }
            } else if k == "plan"@ {
                r matches Some(AgentEventPayload::PlanUpdated { entries }) && plan_view(entries@)
                    == plan_of(items_of(json_get(*value, "entries"@)))
            } else if k == "tool_call"@ {
                r matches Some(AgentEventPayload::ToolStarted { tool_call_id, title })
                    && tool_call_id@ == text_field(*value, "toolCallId"@) && title@ == text_field(
                    *value,
                    "title"@,
                )
            } else if k == "tool_call_update"@ {
                r matches Some(AgentEventPayload::ToolFinished { tool_call_id, status })
                    && tool_call_id@ == text_field(*value, "toolCallId"@) && status@ == text_field(
                    *value,
                    "status"@,
                )
            } else if k == "usage_update"@ {
                r == Some(
                    AgentEventPayload::UsageUpdated {
                        used: match u64_of(json_get(*value, "used"@)) {
                            Some(n) => n,
                            None => 0,
                        },
                        size: match u64_of(json_get(*value, "size"@)) {
                            Some(n) => n,
                            None => 0,
                        },
                    },
                )
            } else {
                r is None
            },
            None => r is None,
        },
        r matches Some(p) ==> !ends_run(p),
{
    let kind = match value.get("sessionUpdate") {
        Some(JsonValue::String(k)) => k,
        _ => {
            return None;
        },
    };
    let k = kind.as_str();
    if str_eq(k, "agent_message_chunk") {
        match get_opt(value.get("content"), "text") {
            Some(JsonValue::String(t)) => Some(AgentEventPayload::TextDelta { text: copy_string(t) }),
            _ => None,
        }
    } else if str_eq(k, "plan") {
        let entries = match array_items(value.get("entries")) {
            Some(items) => plan_entries(items),
            None => {
                let v: Vec<PlanEntry> = Vec::new();
                assert(plan_view(v@) =~= plan_of(Seq::<JsonValue>::empty()));
                v
            },
        };
        Some(AgentEventPayload::PlanUpdated { entries })
    } else if str_eq(k, "tool_call") {
        Some(
            AgentEventPayload::ToolStarted {
                tool_call_id: string_field(value, "toolCallId"),
                title: string_field(value, "title"),
            },
        )
    } else if str_eq(k, "tool_call_update") {
        Some(
            AgentEventPayload::ToolFinished {
                tool_call_id: string_field(value, "toolCallId"),
                status: string_field(value, "status"),
            },
        )
    } else if str_eq(k, "usage_update") {
        let used = match u64_value(value.get("used")) {
            Some(n) => n,
            None => 0,
        };
        let size = match u64_value(value.get("size")) {
            Some(n) => n,
            None => 0,
        };
        Some(AgentEventPayload::UsageUpdated { used, size })
    } else {
        None
    }
}

/// The names of the permission options in an array of option objects.
pub open spec fn option_names(items: Seq<JsonValue>) -> Seq<Seq<char>>
    decreases items.len(),
{
    if items.len() == 0 {
        Seq::empty()
    } else {
        let rest = option_names(items.drop_last());
        match str_of(json_get(items.last(), "name"@)) {
            Some(n) => rest.push(n),
            None => rest,
        }
    }
}

fn option_names_of(items: &Vec<JsonValue>) -> (r: Vec<String>)
    ensures
        views_of(r@) == option_names(items@),
{
    let mut out: Vec<String> = Vec::new();
    let mut i: usize = 0;
    while i < items.len()
        invariant
            i <= items.len(),
            views_of(out@) == option_names(items@.take(i as int)),
        decreases items.len() - i,
    {
        let ghost before = out@;
        assert(items@.take(i + 1).drop_last() =~= items@.take(i as int));
        assert(items@.take(i + 1).last() == items@[i as int]);
        match items[i].get("name") {
            Some(JsonValue::String(n)) => {
                out.push(copy_string(n));
                assert(views_of(out@) =~= views_of(before).push(n@));
            },
            _ => {},
        }
        i = i + 1;
    }
    assert(items@.take(items.len() as int) =~= items@);
    out
}

/// The payload of an ACP permission request: the tool call's ID (empty
/// where it has none) and title, and the names of the offered options.
pub fn permission_payload(value: &JsonValue) -> (r: AgentEventPayload)
    ensures
        r matches AgentEventPayload::PermissionRequested { tool_call_id, title, options } && {
            let call = json_get(*value, "toolCall"@);
            &&& tool_call_id@ == match str_of(get_in(call, "toolCallId"@)) {
                Some(s) => s,
                None => Seq::empty(),
            }
            &&& opt_text(title) == str_of(get_in(call, "title"@))
            &&& views_of(options@) == option_names(items_of(json_get(*value, "options"@)))
        },
{
    let call = value.get("toolCall");
    let tool_call_id = match str_copy(get_opt(call, "toolCallId")) {
        Some(s) => s,
        None => String::new(),
    };
    let options = match array_items(value.get("options")) {
        Some(items) => option_names_of(items),
        None => {
            let v: Vec<String> = Vec::new();
            assert(views_of(v@) =~= Seq::<Seq<char>>::empty());
            v
        },
    };
    AgentEventPayload::PermissionRequested {
        tool_call_id,
        title: str_copy(get_opt(call, "title")),
        options,
    }
}

/// A prompt that an agent accepted: the run it started and the ACP request
/// that carries it.
#[derive(Debug, Clone, PartialEq, Eq)]
pub struct PromptAccepted {
    pub run_id: String,
    pub acp_request_id: String,
}


// ---------------------------------------------------------------------------
// Capability order
// ---------------------------------------------------------------------------

/// `a` comes before `b` in `str` order, or equals it.
pub open spec fn lex_le(a: Seq<char>, b: Seq<char>) -> bool {
    a == b || lex_lt(a, b)
}

/// Every name of `s` comes strictly before the later ones: sorted, each once.
#[verifier::opaque]
pub open spec fn strictly_sorted(s: Seq<Seq<char>>) -> bool {
    forall|i: int, j: int| 0 <= i < j < s.len() ==> lex_lt(#[trigger] s[i], #[trigger] s[j])
}
proof fn lemma_order_0()
    ensures
        lex_lt("mcp.http"@, "mcp.sse"@),
{
    reveal_strlit("mcp.http");
    reveal_strlit("mcp.sse");
    reveal_with_fuel(lex_lt, 6);
}
proof fn lemma_order_1()
    ensures
        lex_lt("mcp.sse"@, "prompt.audio"@),
{
    reveal_strlit("mcp.sse");
    reveal_strlit("prompt.audio");
    reveal_with_fuel(lex_lt, 2);
}
proof fn lemma_order_2()
    ensures
        lex_lt("prompt.audio"@, "prompt.embedded_context"@),
{
    reveal_strlit("prompt.audio");
    reveal_strlit("prompt.embedded_context");
    reveal_with_fuel(lex_lt, 9);
}
proof fn lemma_order_3()
    ensures
        lex_lt("prompt.embedded_context"@, "prompt.image"@),
{
    reveal_strlit("prompt.embedded_context");
    reveal_strlit("prompt.image");
    reveal_with_fuel(lex_lt, 9);
}
proof fn lemma_order_4()
    ensures
        lex_lt("prompt.image"@, "prompt.text"@),
{
    reveal_strlit("prompt.image");
    reveal_strlit("prompt.text");
    reveal_with_fuel(lex_lt, 9);
}
proof fn lemma_order_5()
    ensures
        lex_lt("prompt.text"@, "session.additional_directories"@),
{
    reveal_strlit("prompt.text");
    reveal_strlit("session.additional_directories");
    reveal_with_fuel(lex_lt, 2);
}
proof fn lemma_order_6()
    ensures
        lex_lt("session.additional_directories"@, "session.cancel"@),
{
    reveal_strlit("session.additional_directories");
    reveal_strlit("session.cancel");
    reveal_with_fuel(lex_lt, 10);
}
proof fn lemma_order_7()
    ensures
        lex_lt("session.cancel"@, "session.close"@),
{
    reveal_strlit("session.cancel");
    reveal_strlit("session.close");
    reveal_with_fuel(lex_lt, 11);
}
proof fn lemma_order_8()
    ensures
        lex_lt("session.close"@, "session.delete"@),
{
    reveal_strlit("session.close");
    reveal_strlit("session.delete");
    reveal_with_fuel(lex_lt, 10);
}
proof fn lemma_order_9()
    ensures
        lex_lt("session.delete"@, "session.fork"@),
{
    reveal_strlit("session.delete");
    reveal_strlit("session.fork");
    reveal_with_fuel(lex_lt, 10);
}
proof fn lemma_order_10()
    ensures
        lex_lt("session.fork"@, "session.list"@),
{
    reveal_strlit("session.fork");
    reveal_strlit("session.list");
    reveal_with_fuel(lex_lt, 10);
}
proof fn lemma_order_11()
    ensures
        lex_lt("session.list"@, "session.load"@),
{
    reveal_strlit("session.list");
    reveal_strlit("session.load");
    reveal_with_fuel(lex_lt, 11);
}
proof fn lemma_order_12()
    ensures
        lex_lt("session.load"@, "session.new"@),
{
    reveal_strlit("session.load");
    reveal_strlit("session.new");
    reveal_with_fuel(lex_lt, 10);
}
proof fn lemma_order_13()
    ensures
        lex_lt("session.new"@, "session.prompt"@),
{
    reveal_strlit("session.new");
    reveal_strlit("session.prompt");
    reveal_with_fuel(lex_lt, 10);
}
proof fn lemma_order_14()
    ensures
        lex_lt("session.prompt"@, "session.resume"@),
{
    reveal_strlit("session.prompt");
    reveal_strlit("session.resume");
    reveal_with_fuel(lex_lt, 10);
}
proof fn lemma_order_15()
    ensures
        lex_lt("session.resume"@, "session.update"@),
{
    reveal_strlit("session.resume");
    reveal_strlit("session.update");
    reveal_with_fuel(lex_lt, 10);
}
/// `a` is strictly sorted and ends at or before `bound`.
#[verifier::opaque]
spec fn sorted_up_to(a: Seq<Seq<char>>, bound: Seq<char>) -> bool {
    strictly_sorted(a) && (a.len() > 0 ==> lex_le(a.last(), bound))
}

proof fn lemma_extend(a: Seq<Seq<char>>, enabled: bool, prev: Seq<char>, name: Seq<char>)
    requires
        sorted_up_to(a, prev),
        lex_lt(prev, name),
    ensures
        sorted_up_to(a + flag(enabled, name), name),
{
    reveal(sorted_up_to);
    reveal(strictly_sorted);
    reveal(flag);
    let r = a + flag(enabled, name);
    if a.len() > 0 && a.last() != prev {
        lemma_lex_transitive(a.last(), prev, name);
    }
    if enabled {
        assert(r =~= a.push(name));
        assert forall|i: int, j: int| 0 <= i < j < r.len() implies lex_lt(#[trigger] r[i], #[trigger] r[j]) by {
            if j == a.len() {
                if i < a.len() - 1 {
                    assert(lex_lt(a[i], a[a.len() - 1]));
                    lemma_lex_transitive(a[i], a.last(), name);
                }
            } else {
                assert(r[i] == a[i] && r[j] == a[j]);
            }
        }
    } else {
        assert(r =~= a);
    }
}

proof fn lemma_first_flag(enabled: bool, name: Seq<char>)
    ensures
        sorted_up_to(flag(enabled, name), name),
{
    reveal(sorted_up_to);
    reveal(strictly_sorted);
    reveal(flag);
}

proof fn lemma_sorted_up_to(a: Seq<Seq<char>>, bound: Seq<char>)
    requires
        sorted_up_to(a, bound),
    ensures
        strictly_sorted(a),
{
    reveal(sorted_up_to);
}

proof fn lemma_flags_sorted(on0: bool, on1: bool, on2: bool, on3: bool, on4: bool, on5: bool, on6: bool, on7: bool, on8: bool, on9: bool, on10: bool, on11: bool, on12: bool, on13: bool, on14: bool, on15: bool, on16: bool)
    ensures
        strictly_sorted(
            flag(on0, "mcp.http"@)
                + flag(on1, "mcp.sse"@)
                + flag(on2, "prompt.audio"@)
                + flag(on3, "prompt.embedded_context"@)
                + flag(on4, "prompt.image"@)
                + flag(on5, "prompt.text"@)
                + flag(on6, "session.additional_directories"@)
                + flag(on7, "session.cancel"@)
                + flag(on8, "session.close"@)
                + flag(on9, "session.delete"@)
                + flag(on10, "session.fork"@)
                + flag(on11, "session.list"@)
                + flag(on12, "session.load"@)
                + flag(on13, "session.new"@)
                + flag(on14, "session.prompt"@)
                + flag(on15, "session.resume"@)
                + flag(on16, "session.update"@),
        ),
{
    lemma_order_0();
    lemma_order_1();
    lemma_order_2();
    lemma_order_3();
    lemma_order_4();
    lemma_order_5();
    lemma_order_6();
    lemma_order_7();
    lemma_order_8();
    lemma_order_9();
    lemma_order_10();
    lemma_order_11();
    lemma_order_12();
    lemma_order_13();
    lemma_order_14();
    lemma_order_15();
    let p0 = flag(on0, "mcp.http"@);
    lemma_first_flag(on0, "mcp.http"@);
    lemma_extend(p0, on1, "mcp.http"@, "mcp.sse"@);
    let p1 = p0 + flag(on1, "mcp.sse"@);
    lemma_extend(p1, on2, "mcp.sse"@, "prompt.audio"@);
    let p2 = p1 + flag(on2, "prompt.audio"@);
    lemma_extend(p2, on3, "prompt.audio"@, "prompt.embedded_context"@);
    let p3 = p2 + flag(on3, "prompt.embedded_context"@);
    lemma_extend(p3, on4, "prompt.embedded_context"@, "prompt.image"@);
    let p4 = p3 + flag(on4, "prompt.image"@);
    lemma_extend(p4, on5, "prompt.image"@, "prompt.text"@);
    let p5 = p4 + flag(on5, "prompt.text"@);
    lemma_extend(p5, on6, "prompt.text"@, "session.additional_directories"@);
    let p6 = p5 + flag(on6, "session.additional_directories"@);
    lemma_extend(p6, on7, "session.additional_directories"@, "session.cancel"@);
    let p7 = p6 + flag(on7, "session.cancel"@);
    lemma_extend(p7, on8, "session.cancel"@, "session.close"@);
    let p8 = p7 + flag(on8, "session.close"@);
    lemma_extend(p8, on9, "session.close"@, "session.delete"@);
    let p9 = p8 + flag(on9, "session.delete"@);
    lemma_extend(p9, on10, "session.delete"@, "session.fork"@);
    let p10 = p9 + flag(on10, "session.fork"@);
    lemma_extend(p10, on11, "session.fork"@, "session.list"@);
    let p11 = p10 + flag(on11, "session.list"@);
    lemma_extend(p11, on12, "session.list"@, "session.load"@);
    let p12 = p11 + flag(on12, "session.load"@);
    lemma_extend(p12, on13, "session.load"@, "session.new"@);
    let p13 = p12 + flag(on13, "session.new"@);
    lemma_extend(p13, on14, "session.new"@, "session.prompt"@);
    let p14 = p13 + flag(on14, "session.prompt"@);
    lemma_extend(p14, on15, "session.prompt"@, "session.resume"@);
    let p15 = p14 + flag(on15, "session.resume"@);
    lemma_extend(p15, on16, "session.resume"@, "session.update"@);
    let p16 = p15 + flag(on16, "session.update"@);
    lemma_sorted_up_to(p16, "session.update"@);
}

/// The capability names of an initialize response come in strictly
/// increasing `str` order, so each occurs once, whatever the response says.
pub proof fn law_capabilities_are_sorted_and_unique(v: JsonValue)
    ensures
        strictly_sorted(capabilities_of(v)),
{
    let c = capability_object(v);
    lemma_flags_sorted(
        enabled(c, "mcpCapabilities"@, "http"@),
        enabled(c, "mcpCapabilities"@, "sse"@),
        enabled(c, "promptCapabilities"@, "audio"@),
        enabled(c, "promptCapabilities"@, "embeddedContext"@),
        enabled(c, "promptCapabilities"@, "image"@),
        true,
        enabled(c, "sessionCapabilities"@, "additionalDirectories"@),
        true,
        enabled(c, "sessionCapabilities"@, "close"@),
        enabled(c, "sessionCapabilities"@, "delete"@),
        enabled(c, "sessionCapabilities"@, "fork"@),
        enabled(c, "sessionCapabilities"@, "list"@),
        truthy(get_in(c, "loadSession"@)),
        true,
        true,
        enabled(c, "sessionCapabilities"@, "resume"@),
        true,
    );
}


/// The capability names that the flags `on0` .. `on16` switch on, in order.
spec fn flag_list(on0: bool, on1: bool, on2: bool, on3: bool, on4: bool, on5: bool, on6: bool, on7: bool, on8: bool, on9: bool, on10: bool, on11: bool, on12: bool, on13: bool, on14: bool, on15: bool, on16: bool) -> Seq<Seq<char>> {
    flag(on0, "mcp.http"@)
            + flag(on1, "mcp.sse"@)
            + flag(on2, "prompt.audio"@)
            + flag(on3, "prompt.embedded_context"@)
            + flag(on4, "prompt.image"@)
            + flag(on5, "prompt.text"@)
            + flag(on6, "session.additional_directories"@)
            + flag(on7, "session.cancel"@)
            + flag(on8, "session.close"@)
            + flag(on9, "session.delete"@)
            + flag(on10, "session.fork"@)
            + flag(on11, "session.list"@)
            + flag(on12, "session.load"@)
            + flag(on13, "session.new"@)
            + flag(on14, "session.prompt"@)
            + flag(on15, "session.resume"@)
            + flag(on16, "session.update"@)
}

proof fn lemma_flag_contains(enabled: bool, name: Seq<char>)
    ensures
        forall|x: Seq<char>| #[trigger] flag(enabled, name).contains(x) <==> (enabled && x == name),
{
    reveal(flag);
    if enabled {
        assert(flag(enabled, name)[0] == name);
    }
}

/// Every capability name, in `str` order.
spec fn capability_name_list() -> Seq<Seq<char>> {
    seq![
        "mcp.http"@,
        "mcp.sse"@,
        "prompt.audio"@,
        "prompt.embedded_context"@,
        "prompt.image"@,
        "prompt.text"@,
        "session.additional_directories"@,
        "session.cancel"@,
        "session.close"@,
        "session.delete"@,
        "session.fork"@,
        "session.list"@,
        "session.load"@,
        "session.new"@,
        "session.prompt"@,
        "session.resume"@,
        "session.update"@,
    ]
}

proof fn lemma_names_adjacent(k: int)
    requires
        0 <= k < 16,
    ensures
        lex_lt(capability_name_list()[k], capability_name_list()[k + 1]),
{
    lemma_order_0();
    lemma_order_1();
    lemma_order_2();
    lemma_order_3();
    lemma_order_4();
    lemma_order_5();
    lemma_order_6();
    lemma_order_7();
    lemma_order_8();
    lemma_order_9();
    lemma_order_10();
    lemma_order_11();
    lemma_order_12();
    lemma_order_13();
    lemma_order_14();
    lemma_order_15();
}

proof fn lemma_names_below(j: int)
    requires
        0 <= j < 17,
    ensures
        forall|i: int| 0 <= i < j ==> lex_lt(#[trigger] capability_name_list()[i], capability_name_list()[j]),
    decreases j,
{
    let l = capability_name_list();
    if j > 0 {
        lemma_names_below(j - 1);
        lemma_names_adjacent(j - 1);
        assert forall|i: int| 0 <= i < j implies lex_lt(#[trigger] l[i], l[j]) by {
            if i < j - 1 {
                lemma_lex_transitive(l[i], l[j - 1], l[j]);
            }
        }
    }
}

/// The capability names are pairwise different.
proof fn lemma_names_distinct()
    ensures
        forall|i: int, j: int|
            0 <= i < j < 17 ==> #[trigger] capability_name_list()[i] != #[trigger] capability_name_list()[j],
{
    let l = capability_name_list();
    assert forall|i: int, j: int| 0 <= i < j < 17 implies #[trigger] l[i] != #[trigger] l[j] by {
        lemma_names_below(j);
        lemma_lex_irreflexive(l[i]);
    }
}

/// Each name of the flag list is listed exactly when its flag is on.
#[verifier::spinoff_prover]
#[verifier::rlimit(60)]
proof fn lemma_flag_list_contains(on0: bool, on1: bool, on2: bool, on3: bool, on4: bool, on5: bool, on6: bool, on7: bool, on8: bool, on9: bool, on10: bool, on11: bool, on12: bool, on13: bool, on14: bool, on15: bool, on16: bool)
    ensures
        flag_list(on0, on1, on2, on3, on4, on5, on6, on7, on8, on9, on10, on11, on12, on13, on14, on15, on16).contains("mcp.http"@) <==> on0,
        flag_list(on0, on1, on2, on3, on4, on5, on6, on7, on8, on9, on10, on11, on12, on13, on14, on15, on16).contains("mcp.sse"@) <==> on1,
        flag_list(on0, on1, on2, on3, on4, on5, on6, on7, on8, on9, on10, on11, on12, on13, on14, on15, on16).contains("prompt.audio"@) <==> on2,
        flag_list(on0, on1, on2, on3, on4, on5, on6, on7, on8, on9, on10, on11, on12, on13, on14, on15, on16).contains("prompt.embedded_context"@) <==> on3,
        flag_list(on0, on1, on2, on3, on4, on5, on6, on7, on8, on9, on10, on11, on12, on13, on14, on15, on16).contains("prompt.image"@) <==> on4,
        flag_list(on0, on1, on2, on3, on4, on5, on6, on7, on8, on9, on10, on11, on12, on13, on14, on15, on16).contains("prompt.text"@) <==> on5,
        flag_list(on0, on1, on2, on3, on4, on5, on6, on7, on8, on9, on10, on11, on12, on13, on14, on15, on16).contains("session.additional_directories"@) <==> on6,
        flag_list(on0, on1, on2, on3, on4, on5, on6, on7, on8, on9, on10, on11, on12, on13, on14, on15, on16).contains("session.cancel"@) <==> on7,
        flag_list(on0, on1, on2, on3, on4, on5, on6, on7, on8, on9, on10, on11, on12, on13, on14, on15, on16).contains("session.close"@) <==> on8,
        flag_list(on0, on1, on2, on3, on4, on5, on6, on7, on8, on9, on10, on11, on12, on13, on14, on15, on16).contains("session.delete"@) <==> on9,
        flag_list(on0, on1, on2, on3, on4, on5, on6, on7, on8, on9, on10, on11, on12, on13, on14, on15, on16).contains("session.fork"@) <==> on10,
        flag_list(on0, on1, on2, on3, on4, on5, on6, on7, on8, on9, on10, on11, on12, on13, on14, on15, on16).contains("session.list"@) <==> on11,
        flag_list(on0, on1, on2, on3, on4, on5, on6, on7, on8, on9, on10, on11, on12, on13, on14, on15, on16).contains("session.load"@) <==> on12,
        flag_list(on0, on1, on2, on3, on4, on5, on6, on7, on8, on9, on10, on11, on12, on13, on14, on15, on16).contains("session.new"@) <==> on13,
        flag_list(on0, on1, on2, on3, on4, on5, on6, on7, on8, on9, on10, on11, on12, on13, on14, on15, on16).contains("session.prompt"@) <==> on14,
        flag_list(on0, on1, on2, on3, on4, on5, on6, on7, on8, on9, on10, on11, on12, on13, on14, on15, on16).contains("session.resume"@) <==> on15,
        flag_list(on0, on1, on2, on3, on4, on5, on6, on7, on8, on9, on10, on11, on12, on13, on14, on15, on16).contains("session.update"@) <==> on16,
{
    broadcast use vstd::seq_lib::lemma_seq_concat_contains_all_elements;
    lemma_flag_contains(on0, "mcp.http"@);
    lemma_flag_contains(on1, "mcp.sse"@);
    lemma_flag_contains(on2, "prompt.audio"@);
    lemma_flag_contains(on3, "prompt.embedded_context"@);
    lemma_flag_contains(on4, "prompt.image"@);
    lemma_flag_contains(on5, "prompt.text"@);
    lemma_flag_contains(on6, "session.additional_directories"@);
    lemma_flag_contains(on7, "session.cancel"@);
    lemma_flag_contains(on8, "session.close"@);
    lemma_flag_contains(on9, "session.delete"@);
    lemma_flag_contains(on10, "session.fork"@);
    lemma_flag_contains(on11, "session.list"@);
    lemma_flag_contains(on12, "session.load"@);
    lemma_flag_contains(on13, "session.new"@);
    lemma_flag_contains(on14, "session.prompt"@);
    lemma_flag_contains(on15, "session.resume"@);
    lemma_flag_contains(on16, "session.update"@);
    lemma_names_distinct();
    assert(capability_name_list()[0] == "mcp.http"@);
    assert(capability_name_list()[1] == "mcp.sse"@);
    assert(capability_name_list()[2] == "prompt.audio"@);
    assert(capability_name_list()[3] == "prompt.embedded_context"@);
    assert(capability_name_list()[4] == "prompt.image"@);
    assert(capability_name_list()[5] == "prompt.text"@);
    assert(capability_name_list()[6] == "session.additional_directories"@);
    assert(capability_name_list()[7] == "session.cancel"@);
    assert(capability_name_list()[8] == "session.close"@);
    assert(capability_name_list()[9] == "session.delete"@);
    assert(capability_name_list()[10] == "session.fork"@);
    assert(capability_name_list()[11] == "session.list"@);
    assert(capability_name_list()[12] == "session.load"@);
    assert(capability_name_list()[13] == "session.new"@);
    assert(capability_name_list()[14] == "session.prompt"@);
    assert(capability_name_list()[15] == "session.resume"@);
    assert(capability_name_list()[16] == "session.update"@);
}

/// Each optional capability is listed exactly when its flag in the
/// response's `agentCapabilities` (or `agent_capabilities`) object is `true`
/// or an object, and the five capabilities every ACP agent has are always
/// listed.
pub proof fn law_capabilities_follow_their_flags(v: JsonValue)
    ensures
        capabilities_of(v).contains("mcp.http"@) <==> truthy(get_in(get_in(either(json_get(v, "agentCapabilities"@), json_get(v, "agent_capabilities"@)), "mcpCapabilities"@), "http"@)),
        capabilities_of(v).contains("mcp.sse"@) <==> truthy(get_in(get_in(either(json_get(v, "agentCapabilities"@), json_get(v, "agent_capabilities"@)), "mcpCapabilities"@), "sse"@)),
        capabilities_of(v).contains("prompt.audio"@) <==> truthy(get_in(get_in(either(json_get(v, "agentCapabilities"@), json_get(v, "agent_capabilities"@)), "promptCapabilities"@), "audio"@)),
        capabilities_of(v).contains("prompt.embedded_context"@) <==> truthy(get_in(get_in(either(json_get(v, "agentCapabilities"@), json_get(v, "agent_capabilities"@)), "promptCapabilities"@), "embeddedContext"@)),
        capabilities_of(v).contains("prompt.image"@) <==> truthy(get_in(get_in(either(json_get(v, "agentCapabilities"@), json_get(v, "agent_capabilities"@)), "promptCapabilities"@), "image"@)),
        capabilities_of(v).contains("session.additional_directories"@) <==> truthy(get_in(get_in(either(json_get(v, "agentCapabilities"@), json_get(v, "agent_capabilities"@)), "sessionCapabilities"@), "additionalDirectories"@)),
        capabilities_of(v).contains("session.close"@) <==> truthy(get_in(get_in(either(json_get(v, "agentCapabilities"@), json_get(v, "agent_capabilities"@)), "sessionCapabilities"@), "close"@)),
        capabilities_of(v).contains("session.delete"@) <==> truthy(get_in(get_in(either(json_get(v, "agentCapabilities"@), json_get(v, "agent_capabilities"@)), "sessionCapabilities"@), "delete"@)),
        capabilities_of(v).contains("session.fork"@) <==> truthy(get_in(get_in(either(json_get(v, "agentCapabilities"@), json_get(v, "agent_capabilities"@)), "sessionCapabilities"@), "fork"@)),
        capabilities_of(v).contains("session.list"@) <==> truthy(get_in(get_in(either(json_get(v, "agentCapabilities"@), json_get(v, "agent_capabilities"@)), "sessionCapabilities"@), "list"@)),
        capabilities_of(v).contains("session.resume"@) <==> truthy(get_in(get_in(either(json_get(v, "agentCapabilities"@), json_get(v, "agent_capabilities"@)), "sessionCapabilities"@), "resume"@)),
        capabilities_of(v).contains("session.load"@) <==> truthy(get_in(either(json_get(v, "agentCapabilities"@), json_get(v, "agent_capabilities"@)), "loadSession"@)),
        capabilities_of(v).contains("prompt.text"@),
        capabilities_of(v).contains("session.cancel"@),
        capabilities_of(v).contains("session.new"@),
        capabilities_of(v).contains("session.prompt"@),
        capabilities_of(v).contains("session.update"@),
{
    let c = capability_object(v);
    lemma_flag_list_contains(
        enabled(c, "mcpCapabilities"@, "http"@),
        enabled(c, "mcpCapabilities"@, "sse"@),
        enabled(c, "promptCapabilities"@, "audio"@),
        enabled(c, "promptCapabilities"@, "embeddedContext"@),
        enabled(c, "promptCapabilities"@, "image"@),
        true,
        enabled(c, "sessionCapabilities"@, "additionalDirectories"@),
        true,
        enabled(c, "sessionCapabilities"@, "close"@),
        enabled(c, "sessionCapabilities"@, "delete"@),
        enabled(c, "sessionCapabilities"@, "fork"@),
        enabled(c, "sessionCapabilities"@, "list"@),
        truthy(get_in(c, "loadSession"@)),
        true,
        true,
        enabled(c, "sessionCapabilities"@, "resume"@),
        true,
    );
}

} // verus!
