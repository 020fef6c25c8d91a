use vela::harness::{
    core_options, option_value, scenario_reply, socket_path, supervisor_gone, CoreOptions,
    HarnessReply, Scenario,
};
use vela::json::JsonValue;

fn args(items: &[&str]) -> Vec<String> {
    items.iter().map(|item| item.to_string()).collect()
}

#[test]
fn scenario_names_select_fixture_behaviour() {
    assert_eq!(Scenario::parse("timeout"), Scenario::Timeout);
    assert_eq!(Scenario::parse("invalid"), Scenario::Invalid);
    assert_eq!(Scenario::parse("unauthenticated"), Scenario::Unauthenticated);
    assert_eq!(Scenario::parse("incompatible"), Scenario::Incompatible);
    assert_eq!(Scenario::parse("anything-else"), Scenario::Ready);
}

#[test]
fn option_values_follow_their_flag() {
    let arguments = args(&["--scenario", "timeout", "--pid-file", "/tmp/pid"]);
    assert_eq!(option_value(&arguments, "--scenario").as_deref(), Some("timeout"));
    assert_eq!(option_value(&arguments, "--pid-file").as_deref(), Some("/tmp/pid"));
    assert_eq!(option_value(&arguments, "--missing"), None);
    assert_eq!(option_value(&args(&["--scenario"]), "--scenario"), None);
}

#[test]
fn socket_argument_is_required_with_a_path() {
    assert_eq!(socket_path(&args(&["--socket", "/tmp/vela.sock"])), Ok("/tmp/vela.sock".to_string()));
    assert_eq!(
        socket_path(&args(&["--socket", "a", "--socket", "b"])),
        Ok("a".to_string())
    );
    assert_eq!(socket_path(&args(&["--socket"])), Err("--socket requires a path".to_string()));
    assert_eq!(
        socket_path(&args(&[])),
        Err("usage: vela-core --socket <path> [--exit-with-parent]".to_string())
    );
}

#[test]
fn unknown_arguments_fail_visibly() {
    let refused = socket_path(&args(&["--socket", "/tmp/vela-core-unused.sock", "--nope"]));
    assert!(refused.unwrap_err().contains("unknown argument --nope"));
    assert_eq!(
        core_options(&args(&["--verbose", "--socket", "a"])),
        Err("unknown argument --verbose".to_string())
    );
}

#[test]
fn exit_with_parent_is_an_optional_flag() {
    assert_eq!(
        core_options(&args(&["--socket", "/tmp/s", "--exit-with-parent"])),
        Ok(CoreOptions { socket_path: "/tmp/s".to_string(), exit_with_parent: true })
    );
    assert_eq!(
        core_options(&args(&["--exit-with-parent", "--socket", "/tmp/s"])),
        Ok(CoreOptions { socket_path: "/tmp/s".to_string(), exit_with_parent: true })
    );
    assert_eq!(
        core_options(&args(&["--socket", "/tmp/s"])),
        Ok(CoreOptions { socket_path: "/tmp/s".to_string(), exit_with_parent: false })
    );
}

#[test]
fn a_supervisor_is_gone_when_the_parent_changes_or_is_init() {
    assert!(!supervisor_gone(4242, 4242));
    assert!(supervisor_gone(4242, 1));
    assert!(supervisor_gone(4242, 777));
    assert!(supervisor_gone(1, 1));
}

#[test]
fn scripted_replies_follow_the_scenario() {
    let id = || JsonValue::from_u64(7);
    assert!(matches!(scenario_reply(Scenario::Timeout, id()), HarnessReply::Hang));
    match scenario_reply(Scenario::Invalid, id()) {
        HarnessReply::Line(line) => assert_eq!(line, "not-json"),
        other => panic!("unexpected {other:?}"),
    }
    match scenario_reply(Scenario::Unauthenticated, id()) {
        HarnessReply::Json(value) => {
            assert_eq!(value.get("id").unwrap().as_u64(), Some(7));
            let error = value.get("error").unwrap();
            assert_eq!(error.get("message").unwrap().as_str().unwrap(), "authentication required");
            match error.get("code").unwrap() {
                JsonValue::Number(n) => assert_eq!(n.text, "-32000"),
                other => panic!("unexpected {other:?}"),
            }
        }
        other => panic!("unexpected {other:?}"),
    }
    match scenario_reply(Scenario::Ready, id()) {
        HarnessReply::Json(value) => {
            let summary = vela::acp::normalize_response(value.get("result").unwrap());
            assert_eq!(summary.agent_name.as_deref(), Some("Fake ACP Harness"));
            assert_eq!(
                summary.capabilities,
                [
                    "mcp.http",
                    "prompt.embedded_context",
                    "prompt.image",
                    "prompt.text",
                    "session.cancel",
                    "session.list",
                    "session.load",
                    "session.new",
                    "session.prompt",
                    "session.resume",
                    "session.update",
                ]
            );
        }
        other => panic!("unexpected {other:?}"),
    }
}
