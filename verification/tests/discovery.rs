use vela::acp::{InitializationSummary, InitializeFailure};
use vela::discovery::{
    built_in_definitions, classify_initialize_failure, configuration_error, discovered,
    executable_candidates, join_path, known_directories, load_definitions, probe_detail, valid_id,
    version_detail, version_result, AgentDescriptor, AgentSource, AgentStatus,
    DiscoveryService, HarnessConfig, HarnessDefinition, ProbeOutcome, UserHarnessDefinition,
};

fn strings(items: &[&str]) -> Vec<String> {
    items.iter().map(|item| item.to_string()).collect()
}

fn user(id: &str, command: &str) -> UserHarnessDefinition {
    UserHarnessDefinition {
        id: id.to_string(),
        display_name: format!("{id} agent"),
        command: command.to_string(),
        adapter: "custom-acp".to_string(),
        version_arguments: strings(&["--version"]),
        launch_arguments: strings(&["--acp"]),
        launch_environment: vec![("VELA_TEST_ENFORCEMENT".to_string(), "enabled".to_string())],
        enforced_session_mode: "safe".to_string(),
    }
}

fn ready_agent(id: &str, capabilities: &[&str], executable: Option<&str>) -> AgentDescriptor {
    AgentDescriptor {
        id: id.to_string(),
        display_name: id.to_string(),
        adapter: "custom-acp".to_string(),
        source: AgentSource::UserDefined,
        status: AgentStatus::Ready,
        executable_path: executable.map(str::to_string),
        version: Some("1.0".to_string()),
        protocol_version: Some("1".to_string()),
        enforced_session_mode: "safe".to_string(),
        capabilities: strings(capabilities),
        auth_methods: Vec::new(),
        diagnostic: None,
    }
}

#[test]
fn ids_are_stable_and_file_safe() {
    assert!(valid_id("my-agent-2"));
    assert!(!valid_id("My Agent"));
    assert!(!valid_id("2-agent"));
}

#[test]
fn empty_and_punctuated_ids_are_invalid() {
    assert!(!valid_id(""));
    assert!(!valid_id("agent_1"));
    assert!(valid_id("a"));
}

#[test]
fn the_built_in_harness_is_codex_through_its_adapter() {
    let definitions = built_in_definitions();
    assert_eq!(definitions.len(), 1);
    assert_eq!(definitions[0].id, "codex");
    assert_eq!(definitions[0].display_name, "Codex");
    assert_eq!(definitions[0].adapter, "codex-acp");
    assert_eq!(definitions[0].command, "codex-acp");
    assert_eq!(definitions[0].provider_command.as_deref(), Some("codex"));
    assert_eq!(definitions[0].version_arguments, strings(&["--version"]));
    assert_eq!(definitions[0].enforced_session_mode, "read-only");
    assert_eq!(definitions[0].source, AgentSource::BuiltIn);
    assert!(definitions[0].launch_arguments.is_empty());
    assert!(definitions[0].launch_environment.is_empty());
}

#[test]
fn user_harnesses_are_merged_after_the_built_ins_and_bad_entries_are_reported() {
    let (definitions, failures) = load_definitions(HarnessConfig::Parsed(vec![
        user("local", "/usr/bin/local-acp"),
        user("codex", "other"),
        user("Bad Id", "x"),
        user("blank", "   "),
        user("local", "again"),
        user("second", "second-acp"),
    ]));
    let ids: Vec<&str> = definitions.iter().map(|d| d.id.as_str()).collect();
    assert_eq!(ids, ["codex", "local", "second"]);
    assert_eq!(definitions[1].source, AgentSource::UserDefined);
    assert_eq!(definitions[1].provider_command, None);
    assert_eq!(definitions[1].launch_arguments, strings(&["--acp"]));
    assert_eq!(definitions[1].enforced_session_mode, "safe");
    assert_eq!(
        definitions[1].launch_environment,
        vec![("VELA_TEST_ENFORCEMENT".to_string(), "enabled".to_string())]
    );
    let diagnostics: Vec<&str> = failures
        .iter()
        .map(|f| f.diagnostic.as_deref().unwrap())
        .collect();
    assert_eq!(
        diagnostics,
        [
            "Invalid or duplicate user harness at index 1: codex",
            "Invalid or duplicate user harness at index 2: Bad Id",
            "Invalid or duplicate user harness at index 3: blank",
            "Invalid or duplicate user harness at index 4: local",
        ]
    );
    assert!(failures.iter().all(|f| f.id == "user-config" && f.status == AgentStatus::Failed));
}

#[test]
fn unreadable_and_invalid_configs_are_visible_failures() {
    let (definitions, failures) = load_definitions(HarnessConfig::Unreadable {
        path: "/etc/vela.json".to_string(),
        error: "permission denied".to_string(),
    });
    assert_eq!(definitions.len(), 1);
    assert_eq!(
        failures[0].diagnostic.as_deref(),
        Some("Could not read /etc/vela.json: permission denied")
    );
    let (_, failures) = load_definitions(HarnessConfig::Invalid {
        path: "h.json".to_string(),
        error: "expected value".to_string(),
    });
    assert_eq!(
        failures[0].diagnostic.as_deref(),
        Some("Invalid harness config h.json: expected value")
    );
    let (definitions, failures) = load_definitions(HarnessConfig::Absent);
    assert_eq!(definitions.len(), 1);
    assert!(failures.is_empty());
    let error = configuration_error("boom".to_string());
    assert_eq!(error.display_name, "User Harness Configuration");
    assert_eq!(error.adapter, "custom-acp");
}

#[test]
fn missing_commands_are_unavailable_or_failed() {
    let definitions = built_in_definitions();
    let codex = &definitions[0];
    let with_provider = discovered(
        codex,
        ProbeOutcome::NotFound { provider: Some("/usr/bin/codex".to_string()) },
    );
    assert_eq!(with_provider.status, AgentStatus::Unavailable);
    assert_eq!(
        with_provider.diagnostic.as_deref(),
        Some("Provider CLI found at /usr/bin/codex, but ACP adapter 'codex-acp' is unavailable")
    );
    let without = discovered(codex, ProbeOutcome::NotFound { provider: None });
    assert_eq!(without.status, AgentStatus::Unavailable);
    assert_eq!(without.diagnostic.as_deref(), Some("ACP adapter 'codex-acp' was not found"));
    let custom = HarnessDefinition {
        id: "mine".to_string(),
        display_name: "Mine".to_string(),
        adapter: "custom-acp".to_string(),
        command: "mine-acp".to_string(),
        provider_command: None,
        version_arguments: strings(&["--version"]),
        launch_arguments: Vec::new(),
        launch_environment: Vec::new(),
        enforced_session_mode: String::new(),
        source: AgentSource::UserDefined,
    };
    let missing = discovered(&custom, ProbeOutcome::NotFound { provider: None });
    assert_eq!(missing.status, AgentStatus::Failed);
    assert_eq!(missing.diagnostic.as_deref(), Some("Configured executable 'mine-acp' was not found"));
}

#[test]
fn probe_results_become_registry_entries() {
    let definitions = built_in_definitions();
    let codex = &definitions[0];
    let failed_version = discovered(
        codex,
        ProbeOutcome::VersionFailed {
            executable: "/bin/codex-acp".to_string(),
            error: "Version probe failed: denied".to_string(),
        },
    );
    assert_eq!(failed_version.status, AgentStatus::Failed);
    assert_eq!(failed_version.executable_path.as_deref(), Some("/bin/codex-acp"));
    assert_eq!(failed_version.version, None);

    let ready = discovered(
        codex,
        ProbeOutcome::Initialized {
            executable: "/bin/codex-acp".to_string(),
            version: "codex 1.0".to_string(),
            result: Ok(InitializationSummary {
                protocol_version: "1".to_string(),
                agent_name: Some("Codex".to_string()),
                agent_version: None,
                capabilities: strings(&["prompt.text", "session.new"]),
                auth_methods: strings(&["chatgpt"]),
            }),
        },
    );
    assert_eq!(ready.status, AgentStatus::Ready);
    assert_eq!(ready.protocol_version.as_deref(), Some("1"));
    assert_eq!(ready.capabilities, strings(&["prompt.text", "session.new"]));
    assert_eq!(ready.auth_methods, strings(&["chatgpt"]));
    assert_eq!(ready.diagnostic, None);
    assert_eq!(ready.enforced_session_mode, "read-only");

    let unauthenticated = discovered(
        codex,
        ProbeOutcome::Initialized {
            executable: "/bin/codex-acp".to_string(),
            version: "codex 1.0".to_string(),
            result: Err(InitializeFailure::Runtime("Authentication required".to_string())),
        },
    );
    assert_eq!(unauthenticated.status, AgentStatus::Unauthenticated);
    assert_eq!(unauthenticated.diagnostic.as_deref(), Some("Authentication required"));
    assert_eq!(unauthenticated.version.as_deref(), Some("codex 1.0"));
}

#[test]
fn initialize_failures_are_classified_by_message() {
    assert_eq!(
        classify_initialize_failure(&InitializeFailure::Runtime("Please LOGIN first".to_string())),
        AgentStatus::Unauthenticated
    );
    assert_eq!(
        classify_initialize_failure(&InitializeFailure::Runtime("missing API key".to_string())),
        AgentStatus::Unauthenticated
    );
    assert_eq!(
        classify_initialize_failure(&InitializeFailure::Runtime(
            "incompatible protocol version".to_string()
        )),
        AgentStatus::Incompatible
    );
    assert_eq!(classify_initialize_failure(&InitializeFailure::Timeout), AgentStatus::Failed);
    assert_eq!(
        classify_initialize_failure(&InitializeFailure::Runtime("crashed".to_string())),
        AgentStatus::Failed
    );
}

#[test]
fn version_detail_takes_the_first_non_blank_line_of_output_then_errors() {
    assert_eq!(version_detail(&b"  tool 1.2.3  \nmore\n".to_vec(), &Vec::new()), "tool 1.2.3");
    assert_eq!(version_detail(&b"\n  \n".to_vec(), &b"\n broken-version \n".to_vec()), "broken-version");
    assert_eq!(version_detail(&Vec::new(), &Vec::new()), "no version output");
    let long = vec![b'x'; 600];
    assert_eq!(version_detail(&long, &Vec::new()).len(), 512);
    assert_eq!(version_detail(&vec![0xff, b'a'], &Vec::new()), "\u{fffd}a");
}

#[test]
fn probe_detail_reads_decoded_output() {
    assert_eq!(probe_detail("\n   \n  agent 0.4 (beta)  \nignored"), "agent 0.4 (beta)");
    assert_eq!(probe_detail(" \t \n"), "no version output");
    assert_eq!(probe_detail(""), "no version output");
    let long: String = std::iter::repeat('é').take(700).collect();
    assert_eq!(probe_detail(&long).chars().count(), 512);
}

#[test]
fn failed_version_probes_name_their_exit_status() {
    assert_eq!(version_result(true, "exit status: 0", "tool 1".to_string()), Ok("tool 1".to_string()));
    assert_eq!(
        version_result(false, "exit status: 7", "broken-version".to_string()),
        Err("Version probe exited with exit status: 7: broken-version".to_string())
    );
}

#[test]
fn launch_specs_require_a_ready_capable_defined_agent() {
    let mut service = DiscoveryService::new();
    let full = ["session.new", "session.prompt", "session.cancel"];
    let mut not_ready = ready_agent("sleepy", &full, Some("/bin/sleepy"));
    not_ready.status = AgentStatus::Unavailable;
    service.refresh(
        vec![
            ready_agent("mine", &full, Some("/bin/mine")),
            ready_agent("partial", &["session.prompt"], Some("/bin/partial")),
            ready_agent("nopath", &full, None),
            not_ready,
        ],
        5,
    );
    let mine = HarnessDefinition {
        id: "mine".to_string(),
        display_name: "Mine".to_string(),
        adapter: "custom-acp".to_string(),
        command: "mine".to_string(),
        provider_command: None,
        version_arguments: Vec::new(),
        launch_arguments: strings(&["--acp", "--quiet"]),
        launch_environment: vec![("VELA_TEST_ENFORCEMENT".to_string(), "enabled".to_string())],
        enforced_session_mode: "safe".to_string(),
        source: AgentSource::UserDefined,
    };
    let definitions = vec![mine];
    let spec = service.launch_spec("mine", &definitions).unwrap();
    assert_eq!(spec.executable, "/bin/mine");
    assert_eq!(spec.arguments, strings(&["--acp", "--quiet"]));
    assert_eq!(spec.enforced_session_mode, "safe");
    assert_eq!(
        spec.environment,
        vec![("VELA_TEST_ENFORCEMENT".to_string(), "enabled".to_string())]
    );
    assert_eq!(service.launch_spec("ghost", &definitions), Err("Unknown agent: ghost".to_string()));
    assert_eq!(
        service.launch_spec("sleepy", &definitions),
        Err("Agent sleepy is not ready".to_string())
    );
    assert_eq!(
        service.launch_spec("partial", &definitions),
        Err("Agent partial lacks required capabilities: session.new, session.cancel".to_string())
    );
    assert_eq!(
        service.launch_spec("nopath", &definitions),
        Err("Agent nopath has no executable path".to_string())
    );
    assert_eq!(
        service.launch_spec("mine", &Vec::new()),
        Err("Agent definition changed; refresh discovery".to_string())
    );
}

#[test]
fn each_refresh_is_a_new_generation_ordered_by_id() {
    let mut service = DiscoveryService::new();
    assert_eq!(service.snapshot().generation, 0);
    let full = ["session.new"];
    let first = service.refresh(
        vec![ready_agent("zeta", &full, None), ready_agent("alpha", &full, None)],
        10,
    );
    assert_eq!(first.generation, 1);
    assert_eq!(first.refreshed_at_ms, 10);
    let ids: Vec<&str> = first.agents.iter().map(|a| a.id.as_str()).collect();
    assert_eq!(ids, ["alpha", "zeta"]);
    let second = service.refresh(Vec::new(), 20);
    assert_eq!(second.generation, 2);
    assert_eq!(service.snapshot(), second);
}

#[test]
fn agents_with_the_same_id_keep_the_order_they_were_found_in() {
    let mut service = DiscoveryService::new();
    let snapshot = service.refresh(
        vec![
            configuration_error("first".to_string()),
            ready_agent("zeta", &[], None),
            configuration_error("second".to_string()),
            ready_agent("alpha", &[], None),
            configuration_error("third".to_string()),
        ],
        1,
    );
    let entries: Vec<(&str, Option<&str>)> = snapshot
        .agents
        .iter()
        .map(|a| (a.id.as_str(), a.diagnostic.as_deref()))
        .collect();
    assert_eq!(
        entries,
        [
            ("alpha", None),
            ("user-config", Some("first")),
            ("user-config", Some("second")),
            ("user-config", Some("third")),
            ("zeta", None),
        ]
    );
}

#[test]
fn commands_are_looked_up_along_path_then_known_directories() {
    let known = strings(&["/opt/known", "/usr/local/bin/"]);
    assert_eq!(
        executable_candidates("agent", Some("/first:/second/"), &known),
        strings(&["/first/agent", "/second/agent", "/opt/known/agent", "/usr/local/bin/agent"])
    );
    assert_eq!(
        executable_candidates("agent", None, &known),
        strings(&["/opt/known/agent", "/usr/local/bin/agent"])
    );
    assert_eq!(executable_candidates("bin/agent", Some("/first"), &known), strings(&["bin/agent"]));
    assert_eq!(executable_candidates("/abs/agent", Some("/first"), &known), strings(&["/abs/agent"]));
    assert_eq!(executable_candidates("agent/", None, &strings(&["/d"])), strings(&["/d/agent/"]));
    assert_eq!(executable_candidates("./agent", None, &known), strings(&["./agent"]));
    assert_eq!(executable_candidates("agent", Some(""), &Vec::new()), strings(&["agent"]));
}

#[test]
fn known_directories_include_home_tools() {
    assert_eq!(
        known_directories(Some("/Users/me")),
        strings(&[
            "/opt/homebrew/bin",
            "/usr/local/bin",
            "/usr/bin",
            "/Users/me/.local/bin",
            "/Users/me/.cargo/bin",
        ])
    );
    assert_eq!(known_directories(None).len(), 3);
    assert_eq!(join_path("/a/", "b"), "/a/b");
    assert_eq!(join_path("", "b"), "b");
    assert_eq!(join_path("/a", "/b"), "/b");
}
