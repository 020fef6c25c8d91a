use vela::acp::{normalize_response, normalize_session_update, permission_payload, string_field};
use vela::json::{JsonNumber, JsonValue};
use vela::session::{AgentEventPayload, PlanEntry};

fn s(text: &str) -> JsonValue {
    JsonValue::String(text.to_string())
}

fn n(value: u64) -> JsonValue {
    JsonValue::from_u64(value)
}

fn obj(members: Vec<(&str, JsonValue)>) -> JsonValue {
    JsonValue::Object(members.into_iter().map(|(k, v)| (k.to_string(), v)).collect())
}

#[test]
fn normalizes_wire_capabilities_without_exporting_acp_types() {
    let response = obj(vec![
        ("protocolVersion", n(1)),
        (
            "agentCapabilities",
            obj(vec![
                ("loadSession", JsonValue::Bool(true)),
                (
                    "promptCapabilities",
                    obj(vec![("image", JsonValue::Bool(true)), ("audio", JsonValue::Bool(false))]),
                ),
                ("sessionCapabilities", obj(vec![("list", obj(vec![])), ("resume", obj(vec![]))])),
            ]),
        ),
        ("authMethods", JsonValue::Array(vec![obj(vec![("id", s("chatgpt"))])])),
        ("agentInfo", obj(vec![("name", s("Fake")), ("version", s("1.2.3"))])),
    ]);

    let summary = normalize_response(&response);
    assert_eq!(summary.protocol_version, "1");
    assert_eq!(summary.agent_name.as_deref(), Some("Fake"));
    assert!(summary.capabilities.contains(&"prompt.image".to_owned()));
    assert!(summary.capabilities.contains(&"session.list".to_owned()));
    assert_eq!(summary.auth_methods, ["chatgpt"]);
}

#[test]
fn capabilities_come_sorted_once_each_with_the_acp_defaults() {
    let response = obj(vec![
        (
            "agent_capabilities",
            obj(vec![
                ("mcpCapabilities", obj(vec![("http", JsonValue::Bool(true)), ("sse", JsonValue::Bool(false))])),
                ("promptCapabilities", obj(vec![("embeddedContext", JsonValue::Bool(true))])),
                ("sessionCapabilities", obj(vec![("fork", obj(vec![])), ("close", JsonValue::Null)])),
            ]),
        ),
        ("protocol_version", s("2025-06")),
        ("auth_methods", JsonValue::Array(vec![obj(vec![("name", s("api-key"))]), obj(vec![("id", n(3))])])),
    ]);
    let summary = normalize_response(&response);
    assert_eq!(
        summary.capabilities,
        [
            "mcp.http",
            "prompt.embedded_context",
            "prompt.text",
            "session.cancel",
            "session.fork",
            "session.new",
            "session.prompt",
            "session.update",
        ]
    );
    let mut sorted = summary.capabilities.clone();
    sorted.sort();
    sorted.dedup();
    assert_eq!(sorted, summary.capabilities);
    assert_eq!(summary.protocol_version, "2025-06");
    assert_eq!(summary.auth_methods, ["api-key"]);
    assert_eq!(summary.agent_name, None);

    let bare = normalize_response(&JsonValue::Null);
    assert_eq!(bare.protocol_version, "1");
    assert_eq!(
        bare.capabilities,
        ["prompt.text", "session.cancel", "session.new", "session.prompt", "session.update"]
    );
    assert!(bare.auth_methods.is_empty());
}

#[test]
fn session_updates_become_vela_payloads() {
    let chunk = obj(vec![
        ("sessionUpdate", s("agent_message_chunk")),
        ("content", obj(vec![("type", s("text")), ("text", s("Hello"))])),
    ]);
    assert_eq!(
        normalize_session_update(&chunk),
        Some(AgentEventPayload::TextDelta { text: "Hello".to_string() })
    );
    let no_text = obj(vec![("sessionUpdate", s("agent_message_chunk")), ("content", obj(vec![]))]);
    assert_eq!(normalize_session_update(&no_text), None);

    let plan = obj(vec![
        ("sessionUpdate", s("plan")),
        (
            "entries",
            JsonValue::Array(vec![obj(vec![
                ("content", s("Read code")),
                ("status", s("pending")),
                ("priority", s("high")),
            ])]),
        ),
    ]);
    assert_eq!(
        normalize_session_update(&plan),
        Some(AgentEventPayload::PlanUpdated {
            entries: vec![PlanEntry {
                content: "Read code".to_string(),
                status: "pending".to_string(),
                priority: "high".to_string(),
            }],
        })
    );
    let tool = obj(vec![("sessionUpdate", s("tool_call")), ("toolCallId", s("t1")), ("title", s("Edit"))]);
    assert_eq!(
        normalize_session_update(&tool),
        Some(AgentEventPayload::ToolStarted { tool_call_id: "t1".to_string(), title: "Edit".to_string() })
    );
    let update = obj(vec![("sessionUpdate", s("tool_call_update")), ("toolCallId", s("t1"))]);
    assert_eq!(
        normalize_session_update(&update),
        Some(AgentEventPayload::ToolFinished { tool_call_id: "t1".to_string(), status: String::new() })
    );
    let usage = obj(vec![("sessionUpdate", s("usage_update")), ("used", n(7)), ("size", s("big"))]);
    assert_eq!(normalize_session_update(&usage), Some(AgentEventPayload::UsageUpdated { used: 7, size: 0 }));
    assert_eq!(normalize_session_update(&obj(vec![("sessionUpdate", s("other"))])), None);
    assert_eq!(normalize_session_update(&obj(vec![])), None);
}

#[test]
fn permission_requests_keep_tool_call_and_option_names() {
    let request = obj(vec![
        ("toolCall", obj(vec![("toolCallId", s("call-1")), ("title", s("Write file"))])),
        (
            "options",
            JsonValue::Array(vec![
                obj(vec![("optionId", s("a")), ("name", s("Allow once"))]),
                obj(vec![("optionId", s("b"))]),
                obj(vec![("name", s("Reject"))]),
            ]),
        ),
    ]);
    assert_eq!(
        permission_payload(&request),
        AgentEventPayload::PermissionRequested {
            tool_call_id: "call-1".to_string(),
            title: Some("Write file".to_string()),
            options: vec!["Allow once".to_string(), "Reject".to_string()],
        }
    );
    assert_eq!(
        permission_payload(&JsonValue::Null),
        AgentEventPayload::PermissionRequested { tool_call_id: String::new(), title: None, options: Vec::new() }
    );
    assert_eq!(string_field(&obj(vec![("x", s("y"))]), "x"), "y");
    assert_eq!(string_field(&obj(vec![("x", n(1))]), "x"), "");
    let number = JsonValue::Number(JsonNumber { text: "1.5".to_string(), unsigned: None });
    assert_eq!(number.as_u64(), None);
}
