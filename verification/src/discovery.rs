//! Agent harness discovery: built-in and user-defined harness definitions,
//! the registry entries that probing produces, launch checks and the cached
//! registry snapshot.

use vstd::prelude::*;
use crate::text::{
    ascii_lower, chars_of, chars_trim, contains, contains_seq, contains_text, copy_opt_string,
    copy_string, copy_strings, decode_lossy, owned, str_eq, string_of, to_ascii_lowercase, trim,
    utf8_lossy, views_of,
};
use crate::order::{TextRanked, ranked, sort_ranked, stably_ordered, text_less};
use crate::acp::{
    InitializationSummary, InitializeFailure, failure_text, AcpLaunchSpec, LaunchView, copy_pairs,
    pair_views,
};
use crate::decimal::{decimal, u64_decimal};

verus! {

/// Where a harness definition comes from.
#[derive(Debug, Clone, Copy, PartialEq, Eq, Structural)]
pub enum AgentSource {
    BuiltIn,
    UserDefined,
}

/// What discovery found out about a harness.
#[derive(Debug, Clone, Copy, PartialEq, Eq, Structural)]
pub enum AgentStatus {
    Unavailable,
    Ready,
    Unauthenticated,
    Incompatible,
    Failed,
}

/// One entry of the agent registry.
#[derive(Debug, Clone, PartialEq, Eq)]
pub struct AgentDescriptor {
    pub id: String,
    pub display_name: String,
    pub adapter: String,
    pub source: AgentSource,
    pub status: AgentStatus,
    pub executable_path: Option<String>,
    pub version: Option<String>,
    pub protocol_version: Option<String>,
    pub enforced_session_mode: String,
    pub capabilities: Vec<String>,
    pub auth_methods: Vec<String>,
    pub diagnostic: Option<String>,
}

/// The cached registry: a generation that every refresh increases, when it
/// was refreshed, and the agents ordered by ID.
#[derive(Debug, Clone, PartialEq, Eq)]
pub struct AgentRegistrySnapshot {
    pub generation: u64,
    pub refreshed_at_ms: u64,
    pub agents: Vec<AgentDescriptor>,
}

/// A harness that discovery probes.
#[derive(Debug, Clone, PartialEq, Eq)]
pub struct HarnessDefinition {
    pub id: String,
    pub display_name: String,
    pub adapter: String,
    pub command: String,
    pub provider_command: Option<String>,
    pub version_arguments: Vec<String>,
    pub launch_arguments: Vec<String>,
    pub launch_environment: Vec<(String, String)>,
    pub enforced_session_mode: String,
    pub source: AgentSource,
}

/// One entry of the user's harness configuration file, with its defaults
/// already applied.
#[derive(Debug, Clone, PartialEq, Eq)]
pub struct UserHarnessDefinition {
    pub id: String,
    pub display_name: String,
    pub command: String,
    pub adapter: String,
    pub version_arguments: Vec<String>,
    pub launch_arguments: Vec<String>,
    pub launch_environment: Vec<(String, String)>,
    pub enforced_session_mode: String,
}

pub struct DescriptorView {
    pub id: Seq<char>,
    pub display_name: Seq<char>,
    pub adapter: Seq<char>,
    pub source: AgentSource,
    pub status: AgentStatus,
    pub executable_path: Option<Seq<char>>,
    pub version: Option<Seq<char>>,
    pub protocol_version: Option<Seq<char>>,
    pub enforced_session_mode: Seq<char>,
    pub capabilities: Seq<Seq<char>>,
    pub auth_methods: Seq<Seq<char>>,
    pub diagnostic: Option<Seq<char>>,
}

/// The view of an optional string.
pub open spec fn opt_chars(o: Option<String>) -> Option<Seq<char>> {
    match o {
        Some(s) => Some(s@),
        None => None,
    }
}

impl View for AgentDescriptor {
    type V = DescriptorView;

    open spec fn view(&self) -> DescriptorView {
        DescriptorView {
            id: self.id@,
            display_name: self.display_name@,
            adapter: self.adapter@,
            source: self.source,
            status: self.status,
            executable_path: opt_chars(self.executable_path),
            version: opt_chars(self.version),
            protocol_version: opt_chars(self.protocol_version),
            enforced_session_mode: self.enforced_session_mode@,
            capabilities: views_of(self.capabilities@),
            auth_methods: views_of(self.auth_methods@),
            diagnostic: opt_chars(self.diagnostic),
        }
    }
}

impl TextRanked for AgentDescriptor {
    open spec fn rank(&self) -> (Seq<char>, Seq<char>) {
        (self.id@, Seq::empty())
    }

    fn ranks_before(&self, other: &Self) -> (r: bool) {
        text_less(self.id.as_str(), other.id.as_str())
    }
}

// ---------------------------------------------------------------------------
// Definitions
// ---------------------------------------------------------------------------

/// A harness ID: a lowercase ASCII letter, then lowercase letters, digits or `-`.
pub open spec fn is_valid_id(id: Seq<char>) -> bool {
    &&& id.len() > 0
    &&& 'a' <= id[0] && id[0] <= 'z'
    &&& forall|i: int|
        1 <= i < id.len() ==> ('a' <= #[trigger] id[i] && id[i] <= 'z') || ('0' <= id[i] && id[i]
            <= '9') || id[i] == '-'
}

/// Whether `id` is a stable, file-safe harness ID.
pub fn valid_id(id: &str) -> (r: bool)
    ensures
        r == is_valid_id(id@),
{
    let v = chars_of(id);
    if v.len() == 0 || !('a' <= v[0] && v[0] <= 'z') {
        return false;
    }
    let mut i: usize = 1;
    while i < v.len()
        invariant
            1 <= i <= v.len(),
            v@ == id@,
            forall|j: int|
                1 <= j < i ==> ('a' <= #[trigger] v@[j] && v@[j] <= 'z') || ('0' <= v@[j] && v@[j]
                    <= '9') || v@[j] == '-',
        decreases v.len() - i,
    {
        let c = v[i];
        if !(('a' <= c && c <= 'z') || ('0' <= c && c <= '9') || c == '-') {
            return false;
        }
        i = i + 1;
    }
    true
}

/// The adapter name of a user harness that names none.
pub fn custom_adapter() -> (r: String)
    ensures
        r@ == "custom-acp"@,
{
    owned("custom-acp")
}

/// The version arguments of a harness that names none.
pub fn version_arguments() -> (r: Vec<String>)
    ensures
        views_of(r@) == seq!["--version"@],
{
    let mut v: Vec<String> = Vec::new();
    v.push(owned("--version"));
    assert(views_of(v@) =~= seq!["--version"@]);
    v
}

/// A built-in definition for the adapter `command` of the provider CLI
/// `provider`, with the default version arguments, no launch arguments or
/// environment, and the session mode `mode`.
fn built_in(id: &str, display_name: &str, command: &str, provider: &str, mode: &str) -> (r:
    HarnessDefinition)
    ensures
        is_built_in(r, id@, display_name@, command@, provider@, mode@),
{
    HarnessDefinition {
        id: owned(id),
        display_name: owned(display_name),
        adapter: owned(command),
        command: owned(command),
        provider_command: Some(owned(provider)),
        version_arguments: version_arguments(),
        launch_arguments: Vec::new(),
        launch_environment: Vec::new(),
        enforced_session_mode: owned(mode),
        source: AgentSource::BuiltIn,
    }
}

/// The built-in harness: Codex through its ACP adapter.
pub fn built_in_definitions() -> (r: Vec<HarnessDefinition>)
    ensures
        built_ins_made(r@),
{
    let mut v: Vec<HarnessDefinition> = Vec::new();
    v.push(built_in("codex", "Codex", "codex-acp", "codex", "read-only"));
    v
}

/// The failed registry entry that reports a problem with the user's harness
/// configuration.
pub open spec fn configuration_error_view(message: Seq<char>) -> DescriptorView {
    DescriptorView {
        id: "user-config"@,
        display_name: "User Harness Configuration"@,
        adapter: "custom-acp"@,
        source: AgentSource::UserDefined,
        status: AgentStatus::Failed,
        executable_path: None,
        version: None,
        protocol_version: None,
        enforced_session_mode: Seq::empty(),
        capabilities: Seq::empty(),
        auth_methods: Seq::empty(),
        diagnostic: Some(message),
    }
}

/// A visible failed entry for a configuration problem.
pub fn configuration_error(message: String) -> (r: AgentDescriptor)
    ensures
        r@ == configuration_error_view(message@),
{
    let r = AgentDescriptor {
        id: owned("user-config"),
        display_name: owned("User Harness Configuration"),
        adapter: owned("custom-acp"),
        source: AgentSource::UserDefined,
        status: AgentStatus::Failed,
        executable_path: None,
        version: None,
        protocol_version: None,
        enforced_session_mode: String::new(),
        capabilities: Vec::new(),
        auth_methods: Vec::new(),
        diagnostic: Some(message),
    };
    assert(r@.capabilities =~= Seq::<Seq<char>>::empty());
    assert(r@.auth_methods =~= Seq::<Seq<char>>::empty());
    r
}

/// What probing learned about a harness, beyond its status.
#[derive(Debug, Clone, PartialEq, Eq)]
pub struct DescriptorDetails {
    pub executable: Option<String>,
    pub version: Option<String>,
    pub protocol_version: Option<String>,
    pub capabilities: Vec<String>,
    pub auth_methods: Vec<String>,
    pub diagnostic: Option<String>,
}

/// The registry entry of a definition with a status and details.
pub open spec fn descriptor_view(d: HarnessDefinition, status: AgentStatus, x: DescriptorDetails) -> DescriptorView {
    DescriptorView {
        id: d.id@,
        display_name: d.display_name@,
        adapter: d.adapter@,
        source: d.source,
        status,
        executable_path: opt_chars(x.executable),
        version: opt_chars(x.version),
        protocol_version: opt_chars(x.protocol_version),
        enforced_session_mode: d.enforced_session_mode@,
        capabilities: views_of(x.capabilities@),
        auth_methods: views_of(x.auth_methods@),
        diagnostic: opt_chars(x.diagnostic),
    }
}

/// The registry entry of a definition.
pub fn descriptor(definition: &HarnessDefinition, status: AgentStatus, details: DescriptorDetails) -> (r:
    AgentDescriptor)
    ensures
        r@ == descriptor_view(*definition, status, details),
{
    AgentDescriptor {
        id: copy_string(&definition.id),
        display_name: copy_string(&definition.display_name),
        adapter: copy_string(&definition.adapter),
        source: definition.source,
        status,
        executable_path: details.executable,
        version: details.version,
        protocol_version: details.protocol_version,
        enforced_session_mode: copy_string(&definition.enforced_session_mode),
        capabilities: details.capabilities,
        auth_methods: details.auth_methods,
        diagnostic: details.diagnostic,
    }
}

/// How an initialization failure is classified from its lowercased message:
/// authentication problems, then protocol or version problems, else a failure.
pub open spec fn failure_status(message: Seq<char>) -> AgentStatus {
    let d = ascii_lower(message);
    if contains_seq(d, "auth"@) || contains_seq(d, "login"@) || contains_seq(d, "api key"@) {
        AgentStatus::Unauthenticated
    } else if contains_seq(d, "protocol"@) || contains_seq(d, "version"@) {
        AgentStatus::Incompatible
    } else {
        AgentStatus::Failed
    }
}

/// The words that mark an initialization failure as an authentication problem.
pub open spec fn authentication_words() -> Seq<Seq<char>> {
    seq!["auth"@, "login"@, "api key"@]
}

/// The words that mark an initialization failure as an incompatibility.
pub open spec fn incompatibility_words() -> Seq<Seq<char>> {
    seq!["protocol"@, "version"@]
}

/// Some word of `words` occurs in `text`.
pub open spec fn mentions_one_of(text: Seq<char>, words: Seq<Seq<char>>) -> bool {
    exists|i: int| 0 <= i < words.len() && contains_seq(text, #[trigger] words[i])
}

/// How an initialization failure is classified, by the words its message
/// contains regardless of ASCII case: any authentication word makes the
/// agent unauthenticated; otherwise any of `protocol` or `version` makes it
/// incompatible; any other message is a plain failure.
pub proof fn law_initialize_failures_are_classified_by_their_words(message: Seq<char>)
    ensures
        mentions_one_of(ascii_lower(message), authentication_words()) ==> failure_status(message)
            == AgentStatus::Unauthenticated,
        !mentions_one_of(ascii_lower(message), authentication_words()) && mentions_one_of(
            ascii_lower(message),
            incompatibility_words(),
        ) ==> failure_status(message) == AgentStatus::Incompatible,
        !mentions_one_of(ascii_lower(message), authentication_words()) && !mentions_one_of(
            ascii_lower(message),
            incompatibility_words(),
        ) ==> failure_status(message) == AgentStatus::Failed,
{
    assert(authentication_words()[0] == "auth"@);
    assert(authentication_words()[1] == "login"@);
    assert(authentication_words()[2] == "api key"@);
    assert(incompatibility_words()[0] == "protocol"@);
    assert(incompatibility_words()[1] == "version"@);
}

/// Classifies a failed ACP initialization.
pub fn classify_initialize_failure(error: &InitializeFailure) -> (r: AgentStatus)
    ensures
        r == failure_status(failure_text(*error)),
{
    let message = error.message();
    let d = to_ascii_lowercase(&chars_of(message.as_str()));
    if contains(&d, &chars_of("auth")) || contains(&d, &chars_of("login")) || contains(
        &d,
        &chars_of("api key"),
    ) {
        AgentStatus::Unauthenticated
    } else if contains(&d, &chars_of("protocol")) || contains(&d, &chars_of("version")) {
        AgentStatus::Incompatible
    } else {
        AgentStatus::Failed
    }
}


// ---------------------------------------------------------------------------
// The user's harness configuration
// ---------------------------------------------------------------------------

/// What reading the user's harness configuration gave.
#[derive(Debug)]
pub enum HarnessConfig {
    /// No configuration file is set.
    Absent,
    /// The file at `path` could not be read.
    Unreadable { path: String, error: String },
    /// The file at `path` is not a valid configuration.
    Invalid { path: String, error: String },
    /// The harness entries of a valid configuration, in file order.
    Parsed(Vec<UserHarnessDefinition>),
}

/// The definition a user harness entry stands for.
pub open spec fn user_definition(item: UserHarnessDefinition) -> HarnessDefinition {
    HarnessDefinition {
        id: item.id,
        display_name: item.display_name,
        adapter: item.adapter,
        command: item.command,
        provider_command: None,
        version_arguments: item.version_arguments,
        launch_arguments: item.launch_arguments,
        launch_environment: item.launch_environment,
        enforced_session_mode: item.enforced_session_mode,
        source: AgentSource::UserDefined,
    }
}

/// The diagnostic of a rejected user harness entry.
pub open spec fn rejected_message(index: nat, id: Seq<char>) -> Seq<char> {
    "Invalid or duplicate user harness at index "@ + decimal(index) + ": "@ + id
}

/// `d` is the built-in definition of the adapter `command` (which is also
/// its adapter name) of the provider CLI `provider`.
pub open spec fn is_built_in(
    d: HarnessDefinition,
    id: Seq<char>,
    display_name: Seq<char>,
    command: Seq<char>,
    provider: Seq<char>,
    mode: Seq<char>,
) -> bool {
    &&& d.id@ == id
    &&& d.display_name@ == display_name
    &&& d.adapter@ == command
    &&& d.command@ == command
    &&& opt_chars(d.provider_command) == Some(provider)
    &&& views_of(d.version_arguments@) == seq!["--version"@]
    &&& d.launch_arguments@.len() == 0
    &&& d.launch_environment@.len() == 0
    &&& d.enforced_session_mode@ == mode
    &&& d.source == AgentSource::BuiltIn
}

/// The built-in definitions, as `built_in_definitions` makes them.
pub open spec fn built_ins_made(d: Seq<HarnessDefinition>) -> bool {
    &&& d.len() == 1
    &&& is_built_in(d[0], "codex"@, "Codex"@, "codex-acp"@, "codex"@, "read-only"@)
}

/// Merging user entries into the known definitions: the definitions
/// accepted, the diagnostics of those refused, and the IDs in use. An entry
/// is accepted when its ID is valid and unused and its command is not blank.
pub open spec fn merged(
    known: Set<Seq<char>>,
    items: Seq<UserHarnessDefinition>,
) -> (Seq<HarnessDefinition>, Seq<Seq<char>>, Set<Seq<char>>)
    decreases items.len(),
{
    if items.len() == 0 {
        (Seq::empty(), Seq::empty(), known)
    } else {
        let (defs, failures, ids) = merged(known, items.drop_last());
        let item = items.last();
        if is_valid_id(item.id@) && trim(item.command@).len() > 0 && !ids.contains(item.id@) {
            (defs.push(user_definition(item)), failures, ids.insert(item.id@))
        } else {
            (defs, failures.push(rejected_message((items.len() - 1) as nat, item.id@)), ids)
        }
    }
}

/// The IDs of the built-in definitions.
pub open spec fn built_in_ids() -> Set<Seq<char>> {
    set!["codex"@]
}

/// The diagnostics of loading the configuration, before its entries are
/// merged.
pub open spec fn config_failures(config: HarnessConfig) -> Seq<Seq<char>> {
    match config {
        HarnessConfig::Unreadable { path, error } => seq![
            "Could not read "@ + path@ + ": "@ + error@,
        ],
        HarnessConfig::Invalid { path, error } => seq![
            "Invalid harness config "@ + path@ + ": "@ + error@,
        ],
        _ => Seq::empty(),
    }
}

/// The diagnostics of the descriptors in `d`.
pub open spec fn diagnostics_of(d: Seq<AgentDescriptor>) -> Seq<Seq<char>> {
    d.map_values(|x: AgentDescriptor| x@.diagnostic.unwrap())
}

/// Every descriptor of `d` reports a configuration problem.
pub open spec fn all_configuration_errors(d: Seq<AgentDescriptor>) -> bool {
    forall|k: int| 0 <= k < d.len() ==> #[trigger] d[k]@ == configuration_error_view(
        d[k]@.diagnostic.unwrap(),
    )
}

fn rejected_text(index: usize, id: &String) -> (r: String)
    ensures
        r@ == rejected_message(index as nat, id@),
{
    let mut m = owned("Invalid or duplicate user harness at index ");
    let digits = u64_decimal(index as u64);
    m.append(string_of(&digits).as_str());
    m.append(": ");
    m.append(id.as_str());
    m
}

/// The harness definitions: the built-ins, then the user's valid entries
/// from `config`, with a configuration-error entry for each problem found.
pub fn load_definitions(config: HarnessConfig) -> (r: (Vec<HarnessDefinition>, Vec<AgentDescriptor>))
    ensures
        built_ins_made(r.0@.take(1)),
        all_configuration_errors(r.1@),
        match config {
            HarnessConfig::Parsed(items) => {
                &&& r.0@.skip(1) == merged(built_in_ids(), items@).0
                &&& diagnostics_of(r.1@) == merged(built_in_ids(), items@).1
            },
            _ => {
                &&& r.0@.len() == 1
                &&& diagnostics_of(r.1@) == config_failures(config)
            },
        },
{
    let mut definitions = built_in_definitions();
    let mut failures: Vec<AgentDescriptor> = Vec::new();
    assert(definitions@.take(1) =~= definitions@);
    match config {
        HarnessConfig::Absent => {
            assert(diagnostics_of(failures@) =~= Seq::<Seq<char>>::empty());
            (definitions, failures)
        },
        HarnessConfig::Unreadable { path, error } => {
            let mut m = owned("Could not read ");
            m.append(path.as_str());
            m.append(": ");
            m.append(error.as_str());
            failures.push(configuration_error(m));
            assert(diagnostics_of(failures@) =~= config_failures(
                HarnessConfig::Unreadable { path, error },
            ));
            (definitions, failures)
        },
        HarnessConfig::Invalid { path, error } => {
            let mut m = owned("Invalid harness config ");
            m.append(path.as_str());
            m.append(": ");
            m.append(error.as_str());
            failures.push(configuration_error(m));
            assert(diagnostics_of(failures@) =~= config_failures(
                HarnessConfig::Invalid { path, error },
            ));
            (definitions, failures)
        },
        HarnessConfig::Parsed(items) => {
            let ghost all = items@;
            let count = items.len();
            let mut ids: Vec<String> = Vec::new();
            ids.push(owned("codex"));
            assert(views_of(ids@).to_set() =~= built_in_ids()) by {
                assert(views_of(ids@) =~= seq!["codex"@]);
                assert forall|x: Seq<char>| views_of(ids@).to_set().contains(x) <==> built_in_ids().contains(x) by {
                    if x == "codex"@ {
                        assert(views_of(ids@)[0] == x);
                    }
                }
            }
            let mut rest = items;
            let mut index: usize = 0;
            assert(all.take(0) =~= Seq::<UserHarnessDefinition>::empty());
            assert(all.skip(0) =~= all);
            assert(definitions@.skip(1) =~= Seq::<HarnessDefinition>::empty());
            assert(diagnostics_of(failures@) =~= Seq::<Seq<char>>::empty());
            while rest.len() > 0
                invariant
                    index + rest@.len() == all.len(),
                    all.len() == count,
                    rest@ == all.skip(index as int),
                    built_ins_made(definitions@.take(1)),
                    definitions@.len() >= 1,
                    all_configuration_errors(failures@),
                    definitions@.skip(1) == merged(built_in_ids(), all.take(index as int)).0,
                    diagnostics_of(failures@) == merged(built_in_ids(), all.take(index as int)).1,
                    views_of(ids@).to_set() == merged(built_in_ids(), all.take(index as int)).2,
                decreases rest.len(),
            {
                let item = rest.remove(0);
                let ghost prefix = all.take(index as int);
                let ghost next = all.take(index + 1);
                proof {
                    assert(item == all[index as int]);
                    assert(next.drop_last() =~= prefix);
                    assert(next.last() == item);
                    assert(rest@ =~= all.skip(index + 1));
                }
                let valid = valid_id(item.id.as_str());
                let blank = chars_trim(&chars_of(item.command.as_str())).len() == 0;
                let used = contains_text(&ids, item.id.as_str());
                let ghost old_defs = definitions@;
                let ghost old_failures = failures@;
                let ghost old_ids = ids@;
                if valid && !blank && !used {
                    ids.push(copy_string(&item.id));
                    definitions.push(
                        HarnessDefinition {
                            id: item.id,
                            display_name: item.display_name,
                            adapter: item.adapter,
                            command: item.command,
                            provider_command: None,
                            version_arguments: item.version_arguments,
                            launch_arguments: item.launch_arguments,
                            launch_environment: item.launch_environment,
                            enforced_session_mode: item.enforced_session_mode,
                            source: AgentSource::UserDefined,
                        },
                    );
                    proof {
                        assert(definitions@.take(1) =~= old_defs.take(1));
                        assert(definitions@.skip(1) =~= old_defs.skip(1).push(user_definition(item)));
                        assert(views_of(ids@) =~= views_of(old_ids).push(item.id@));
                        let now = views_of(ids@);
                        let was = views_of(old_ids);
                        assert forall|x: Seq<char>| #[trigger] now.to_set().contains(x)
                            == was.to_set().insert(item.id@).contains(x) by {
                            if was.contains(x) {
                                let k = choose|k: int| 0 <= k < was.len() && was[k] == x;
                                assert(now[k] == x);
                            }
                            if x == item.id@ {
                                assert(now[was.len() as int] == x);
                            }
                            if now.contains(x) {
                                let k = choose|k: int| 0 <= k < now.len() && now[k] == x;
                                if k < was.len() {
                                    assert(was[k] == x);
                                }
                            }
                        }
                        assert(now.to_set() =~= was.to_set().insert(item.id@));
                    }
                } else {
                    let message = rejected_text(index, &item.id);
                    failures.push(configuration_error(message));
                    proof {
                        assert(diagnostics_of(failures@) =~= diagnostics_of(old_failures).push(
                            rejected_message(index as nat, item.id@),
                        ));
                        assert forall|k: int| 0 <= k < failures@.len() implies #[trigger] failures@[k]@
                            == configuration_error_view(failures@[k]@.diagnostic.unwrap()) by {
                            if k < old_failures.len() {
                                assert(failures@[k] == old_failures[k]);
                            }
                        }
                    }
                }
                index = index + 1;
            }
            assert(all.take(index as int) =~= all);
            (definitions, failures)
        },
    }
}


// ---------------------------------------------------------------------------
// Probing one harness
// ---------------------------------------------------------------------------

/// What probing a harness found.
#[derive(Debug)]
pub enum ProbeOutcome {
    /// The harness command was not found; `provider` is where its provider
    /// CLI was found, if it has one and it was found.
    NotFound { provider: Option<String> },
    /// The executable was found but its version probe failed.
    VersionFailed { executable: String, error: String },
    /// The executable answered its version probe, and ACP initialization
    /// gave `result`.
    Initialized {
        executable: String,
        version: String,
        result: Result<InitializationSummary, InitializeFailure>,
    },
}

/// The diagnostic for a harness whose command was not found.
pub open spec fn not_found_text(d: HarnessDefinition, provider: Option<Seq<char>>) -> Seq<char> {
    match d.source {
        AgentSource::BuiltIn => match provider {
            Some(p) => "Provider CLI found at "@ + p + ", but ACP adapter '"@ + d.command@
                + "' is unavailable"@,
            None => "ACP adapter '"@ + d.command@ + "' was not found"@,
        },
        AgentSource::UserDefined => "Configured executable '"@ + d.command@ + "' was not found"@,
    }
}

/// The registry entry that probing a definition produces.
pub open spec fn discovered_view(d: HarnessDefinition, outcome: ProbeOutcome) -> DescriptorView {
    let base = DescriptorView {
        id: d.id@,
        display_name: d.display_name@,
        adapter: d.adapter@,
        source: d.source,
        status: AgentStatus::Failed,
        executable_path: None,
        version: None,
        protocol_version: None,
        enforced_session_mode: d.enforced_session_mode@,
        capabilities: Seq::empty(),
        auth_methods: Seq::empty(),
        diagnostic: None,
    };
    match outcome {
        ProbeOutcome::NotFound { provider } => DescriptorView {
            status: if d.source == AgentSource::BuiltIn {
                AgentStatus::Unavailable
            } else {
                AgentStatus::Failed
            },
            diagnostic: Some(not_found_text(d, opt_chars(provider))),
            ..base
        },
        ProbeOutcome::VersionFailed { executable, error } => DescriptorView {
            executable_path: Some(executable@),
            diagnostic: Some(error@),
            ..base
        },
        ProbeOutcome::Initialized { executable, version, result } => match result {
            Ok(summary) => DescriptorView {
                status: AgentStatus::Ready,
                executable_path: Some(executable@),
                version: Some(version@),
                protocol_version: Some(summary.protocol_version@),
                capabilities: views_of(summary.capabilities@),
                auth_methods: views_of(summary.auth_methods@),
                ..base
            },
            Err(failure) => DescriptorView {
                status: failure_status(failure_text(failure)),
                executable_path: Some(executable@),
                version: Some(version@),
                diagnostic: Some(failure_text(failure)),
                ..base
            },
        },
    }
}

fn no_details(diagnostic: String) -> (r: DescriptorDetails)
    ensures
        r.executable is None,
        r.version is None,
        r.protocol_version is None,
        r.capabilities@.len() == 0,
        r.auth_methods@.len() == 0,
        r.diagnostic == Some(diagnostic),
{
    DescriptorDetails {
        executable: None,
        version: None,
        protocol_version: None,
        capabilities: Vec::new(),
        auth_methods: Vec::new(),
        diagnostic: Some(diagnostic),
    }
}

/// The registry entry for `definition` after probing it gave `outcome`: not
/// found (a missing built-in adapter is unavailable, a missing user command
/// a failure), a failed version probe, or the result of ACP initialization
/// (ready with what the agent reported, or a classified failure).
pub fn discovered(definition: &HarnessDefinition, outcome: ProbeOutcome) -> (r: AgentDescriptor)
    ensures
        r@ == discovered_view(*definition, outcome),
{
    let ghost o = outcome;
    match outcome {
        ProbeOutcome::NotFound { provider } => {
            let builtin = match definition.source {
                AgentSource::BuiltIn => true,
                AgentSource::UserDefined => false,
            };
            let mut m: String;
            if builtin {
                match provider {
                    Some(p) => {
                        m = owned("Provider CLI found at ");
                        m.append(p.as_str());
                        m.append(", but ACP adapter '");
                        m.append(definition.command.as_str());
                        m.append("' is unavailable");
                    },
                    None => {
                        m = owned("ACP adapter '");
                        m.append(definition.command.as_str());
                        m.append("' was not found");
                    },
                }
            } else {
                m = owned("Configured executable '");
                m.append(definition.command.as_str());
                m.append("' was not found");
            }
            let status = if builtin {
                AgentStatus::Unavailable
            } else {
                AgentStatus::Failed
            };
            let r = descriptor(definition, status, no_details(m));
            assert(r@.capabilities =~= Seq::<Seq<char>>::empty());
            assert(r@.auth_methods =~= Seq::<Seq<char>>::empty());
            assert(r@ == discovered_view(*definition, o));
            r
        },
        ProbeOutcome::VersionFailed { executable, error } => {
            let mut details = no_details(error);
            details.executable = Some(executable);
            let r = descriptor(definition, AgentStatus::Failed, details);
            assert(r@.capabilities =~= Seq::<Seq<char>>::empty());
            assert(r@.auth_methods =~= Seq::<Seq<char>>::empty());
            r
        },
        ProbeOutcome::Initialized { executable, version, result } => match result {
            Ok(summary) => descriptor(
                definition,
                AgentStatus::Ready,
                DescriptorDetails {
                    executable: Some(executable),
                    version: Some(version),
                    protocol_version: Some(summary.protocol_version),
                    capabilities: summary.capabilities,
                    auth_methods: summary.auth_methods,
                    diagnostic: None,
                },
            ),
            Err(failure) => {
                let status = classify_initialize_failure(&failure);
                let mut details = no_details(failure.message());
                details.executable = Some(executable);
                details.version = Some(version);
                let r = descriptor(definition, status, details);
                assert(r@.capabilities =~= Seq::<Seq<char>>::empty());
                assert(r@.auth_methods =~= Seq::<Seq<char>>::empty());
                r
            },
        },
    }
}

// ---------------------------------------------------------------------------
// Version probes
// ---------------------------------------------------------------------------

/// Where the line that starts `s` ends: at its first newline, or at the end.
pub open spec fn line_end(s: Seq<char>) -> nat
    decreases s.len(),
{
    if s.len() == 0 {
        0
    } else if s[0] == '\n' {
        0
    } else {
        1 + line_end(s.drop_first())
    }
}

/// The first line of `s` that is not blank, trimmed.
pub open spec fn first_nonblank_line(s: Seq<char>) -> Option<Seq<char>>
    decreases s.len(),
{
    let e = line_end(s) as int;
    if trim(s.take(e)).len() > 0 {
        Some(trim(s.take(e)))
    } else if e < s.len() {
        first_nonblank_line(s.skip(e + 1))
    } else {
        None
    }
}

proof fn lemma_line_end(s: Seq<char>, e: int)
    requires
        0 <= e <= s.len(),
        e < s.len() ==> s[e] == '\n',
        forall|k: int| 0 <= k < e ==> s[k] != '\n',
    ensures
        line_end(s) == e,
    decreases e,
{
    if e > 0 {
        assert(s[0] != '\n');
        assert forall|k: int| 0 <= k < e - 1 implies s.drop_first()[k] != '\n' by {
            assert(s.drop_first()[k] == s[k + 1]);
        }
        lemma_line_end(s.drop_first(), e - 1);
    }
}

/// The detail of a probe's output: its first non-blank line, trimmed and
/// cut to 512 characters, or `no version output`.
pub open spec fn detail_text(output: Seq<char>) -> Seq<char> {
    match first_nonblank_line(output) {
        Some(line) => if line.len() > 512 {
            line.take(512)
        } else {
            line
        },
        None => "no version output"@,
    }
}

/// What a version probe reports: the detail of its standard output followed
/// by its standard error, each decoded as UTF-8 with replacement characters.
pub open spec fn version_text(stdout: Seq<u8>, stderr: Seq<u8>) -> Seq<char> {
    detail_text(utf8_lossy(stdout) + "\n"@ + utf8_lossy(stderr))
}

/// The detail a version probe reports from the bytes the executable wrote.
pub fn version_detail(stdout: &Vec<u8>, stderr: &Vec<u8>) -> (r: String)
    ensures
        r@ == version_text(stdout@, stderr@),
{
    let out = decode_lossy(stdout.as_slice());
    let err = decode_lossy(stderr.as_slice());
    let mut combined = out;
    combined.append("\n");
    combined.append(err.as_str());
    probe_detail(combined.as_str())
}

/// The detail of a probe's decoded output.
pub fn probe_detail(output: &str) -> (r: String)
    ensures
        r@ == detail_text(output@),
{
    let s = chars_of(output);
    let ghost all = s@;
    assert(all.skip(0) =~= all);
    let mut pos: usize = 0;
    loop
        invariant
            s@ == all,
            all == output@,
            pos <= s.len(),
            first_nonblank_line(all) == first_nonblank_line(all.skip(pos as int)),
        decreases s.len() - pos,
    {
        let mut e: usize = pos;
        while e < s.len() && s[e] != '\n'
            invariant
                s@ == all,
                pos <= e <= s.len(),
                forall|k: int| pos <= k < e ==> all[k] != '\n',
            decreases s.len() - e,
        {
            e = e + 1;
        }
        let ghost rest = all.skip(pos as int);
        proof {
            assert forall|k: int| 0 <= k < e - pos implies rest[k] != '\n' by {
                assert(rest[k] == all[pos + k]);
            }
            if e < s.len() {
                assert(rest[e - pos] == all[e as int]);
            }
            lemma_line_end(rest, e - pos);
        }
        let mut line: Vec<char> = Vec::new();
        let mut k: usize = pos;
        while k < e
            invariant
                s@ == all,
                pos <= k <= e <= s.len(),
                line@ == all.subrange(pos as int, k as int),
            decreases e - k,
        {
            line.push(s[k]);
            assert(line@ =~= all.subrange(pos as int, k + 1));
            k = k + 1;
        }
        assert(line@ =~= rest.take(e - pos));
        let trimmed = chars_trim(&line);
        if trimmed.len() > 0 {
            assert(first_nonblank_line(rest) == Some(trimmed@));
            let mut cut: Vec<char> = Vec::new();
            let mut j: usize = 0;
            while j < trimmed.len() && j < 512
                invariant
                    j <= trimmed.len(),
                    j <= 512,
                    cut@ == trimmed@.take(j as int),
                decreases trimmed.len() - j,
            {
                cut.push(trimmed[j]);
                assert(cut@ =~= trimmed@.take(j + 1));
                j = j + 1;
            }
            assert(trimmed@.len() <= 512 ==> trimmed@.take(j as int) =~= trimmed@);
            return string_of(&cut);
        }
        if e == s.len() {
            assert(first_nonblank_line(rest) is None);
            return owned("no version output");
        }
        assert(rest.skip(e - pos + 1) =~= all.skip(e + 1));
        pos = e + 1;
    }
}

/// The result of a version probe: the detail when the executable exited
/// successfully, else an error that names the exit status.
pub fn version_result(success: bool, status: &str, detail: String) -> (r: Result<String, String>)
    ensures
        success ==> r == Ok::<String, String>(detail),
        !success ==> (r matches Err(e) && e@ == "Version probe exited with "@ + status@ + ": "@
            + detail@),
{
    if success {
        Ok(detail)
    } else {
        let mut m = owned("Version probe exited with ");
        m.append(status);
        m.append(": ");
        m.append(detail.as_str());
        Err(m)
    }
}


// ---------------------------------------------------------------------------
// The registry
// ---------------------------------------------------------------------------

/// An exact copy of a registry entry.
pub fn copy_descriptor(d: &AgentDescriptor) -> (r: AgentDescriptor)
    ensures
        r@ == d@,
{
    AgentDescriptor {
        id: copy_string(&d.id),
        display_name: copy_string(&d.display_name),
        adapter: copy_string(&d.adapter),
        source: d.source,
        status: d.status,
        executable_path: copy_opt_string(&d.executable_path),
        version: copy_opt_string(&d.version),
        protocol_version: copy_opt_string(&d.protocol_version),
        enforced_session_mode: copy_string(&d.enforced_session_mode),
        capabilities: copy_strings(&d.capabilities),
        auth_methods: copy_strings(&d.auth_methods),
        diagnostic: copy_opt_string(&d.diagnostic),
    }
}

/// The views of a list of registry entries.
pub open spec fn descriptor_views(s: Seq<AgentDescriptor>) -> Seq<DescriptorView> {
    s.map_values(|d: AgentDescriptor| d@)
}

/// An exact copy of a list of registry entries.
pub fn copy_descriptors(v: &Vec<AgentDescriptor>) -> (r: Vec<AgentDescriptor>)
    ensures
        descriptor_views(r@) == descriptor_views(v@),
{
    let mut out: Vec<AgentDescriptor> = Vec::new();
    let mut i: usize = 0;
    while i < v.len()
        invariant
            i <= v.len(),
            out@.len() == i,
            forall|k: int| 0 <= k < i ==> #[trigger] out@[k]@ == v@[k]@,
        decreases v.len() - i,
    {
        out.push(copy_descriptor(&v[i]));
        i = i + 1;
    }
    assert(descriptor_views(out@) =~= descriptor_views(v@));
    out
}

/// The first entry of `agents` with the ID `id`.
pub open spec fn find_agent(agents: Seq<DescriptorView>, id: Seq<char>) -> Option<DescriptorView>
    decreases agents.len(),
{
    if agents.len() == 0 {
        None
    } else if agents[0].id == id {
        Some(agents[0])
    } else {
        find_agent(agents.drop_first(), id)
    }
}

/// The first definition with the ID `id`.
pub open spec fn find_definition(defs: Seq<HarnessDefinition>, id: Seq<char>) -> Option<
    HarnessDefinition,
>
    decreases defs.len(),
{
    if defs.len() == 0 {
        None
    } else if defs[0].id@ == id {
        Some(defs[0])
    } else {
        find_definition(defs.drop_first(), id)
    }
}

/// `parts` joined with `sep` between them.
pub open spec fn joined(parts: Seq<Seq<char>>, sep: Seq<char>) -> Seq<char>
    decreases parts.len(),
{
    if parts.len() == 0 {
        Seq::empty()
    } else if parts.len() == 1 {
        parts[0]
    } else {
        joined(parts.drop_last(), sep) + sep + parts.last()
    }
}

/// The capabilities a session needs that `caps` lacks, in the order
/// `session.new`, `session.prompt`, `session.cancel`.
pub open spec fn missing_capabilities(caps: Seq<Seq<char>>) -> Seq<Seq<char>> {
    seq!["session.new"@, "session.prompt"@, "session.cancel"@].filter(
        |c: Seq<char>| !caps.contains(c),
    )
}

/// How to launch agent `id`: its executable, and its definition's launch
/// arguments, environment and enforced session mode; or why it cannot be
/// launched.
pub open spec fn launch_outcome(
    agents: Seq<DescriptorView>,
    defs: Seq<HarnessDefinition>,
    id: Seq<char>,
) -> Result<LaunchView, Seq<char>> {
    match find_agent(agents, id) {
        None => Err("Unknown agent: "@ + id),
        Some(a) => if a.status != AgentStatus::Ready {
            Err("Agent "@ + id + " is not ready"@)
        } else if missing_capabilities(a.capabilities).len() > 0 {
            Err(
                "Agent "@ + id + " lacks required capabilities: "@ + joined(
                    missing_capabilities(a.capabilities),
                    ", "@,
                ),
            )
        } else {
            match a.executable_path {
                None => Err("Agent "@ + id + " has no executable path"@),
                Some(path) => match find_definition(defs, id) {
                    None => Err("Agent definition changed; refresh discovery"@),
                    Some(d) => Ok(
                        LaunchView {
                            executable: path,
                            arguments: views_of(d.launch_arguments@),
                            environment: pair_views(d.launch_environment@),
                            enforced_session_mode: d.enforced_session_mode@,
                        },
                    ),
                },
            }
        },
    }
}

/// The registry that discovery keeps: the latest snapshot, and the
/// generation that each refresh increases.
pub struct DiscoveryService {
    generation: u64,
    snapshot: AgentRegistrySnapshot,
}

impl DiscoveryService {
    /// The generation of the latest refresh; 0 before any.
    pub closed spec fn generation_spec(&self) -> u64 {
        self.generation
    }

    /// The latest snapshot.
    pub closed spec fn current(&self) -> AgentRegistrySnapshot {
        self.snapshot
    }

    /// A registry that has not been refreshed: generation 0, no agents.
    pub fn new() -> (r: Self)
        ensures
            r.generation_spec() == 0,
            r.current().generation == 0,
            r.current().refreshed_at_ms == 0,
            r.current().agents@.len() == 0,
    {
        DiscoveryService {
            generation: 0,
            snapshot: AgentRegistrySnapshot {
                generation: 0,
                refreshed_at_ms: 0,
                agents: Vec::new(),
            },
        }
    }

    /// A copy of the latest snapshot.
    pub fn snapshot(&self) -> (r: AgentRegistrySnapshot)
        ensures
            r.generation == self.current().generation,
            r.refreshed_at_ms == self.current().refreshed_at_ms,
            descriptor_views(r.agents@) == descriptor_views(self.current().agents@),
    {
        AgentRegistrySnapshot {
            generation: self.snapshot.generation,
            refreshed_at_ms: self.snapshot.refreshed_at_ms,
            agents: copy_descriptors(&self.snapshot.agents),
        }
    }

    /// Records a refresh that found `agents` at `refreshed_at_ms`: the next
    /// generation, with the agents ordered by ID (agents with the same ID in
    /// the order they were found). Returns the new snapshot.
    pub fn refresh(&mut self, agents: Vec<AgentDescriptor>, refreshed_at_ms: u64) -> (r:
        AgentRegistrySnapshot)
        requires
            old(self).generation_spec() < u64::MAX,
        ensures
            final(self).generation_spec() == old(self).generation_spec() + 1,
            final(self).current().generation == final(self).generation_spec(),
            final(self).current().refreshed_at_ms == refreshed_at_ms,
            final(self).current().agents@.to_multiset() == agents@.to_multiset(),
            ranked(final(self).current().agents@),
            stably_ordered(final(self).current().agents@, agents@),
            r.generation == final(self).current().generation,
            r.refreshed_at_ms == refreshed_at_ms,
            descriptor_views(r.agents@) == descriptor_views(final(self).current().agents@),
    {
        let sorted = sort_ranked(agents);
        self.generation = self.generation + 1;
        self.snapshot = AgentRegistrySnapshot {
            generation: self.generation,
            refreshed_at_ms,
            agents: sorted,
        };
        self.snapshot()
    }

    /// How to launch agent `agent_id`, given the current harness
    /// definitions: it must be known, ready, able to create, prompt and
    /// cancel sessions, have an executable, and still be defined.
    pub fn launch_spec(&self, agent_id: &str, definitions: &Vec<HarnessDefinition>) -> (r: Result<
        AcpLaunchSpec,
        String,
    >)
        ensures
            match launch_outcome(descriptor_views(self.current().agents@), definitions@, agent_id@) {
                    Ok(launch) => r matches Ok(spec) && spec@ == launch,
                Err(message) => r matches Err(m) && m@ == message,
            },
    {
        let agents = &self.snapshot.agents;
        let ghost views = descriptor_views(agents@);
        let mut i: usize = 0;
        assert(views.skip(0) =~= views);
        while i < agents.len()
            invariant
                agents == &self.snapshot.agents,
                views == descriptor_views(agents@),
                i <= agents.len(),
                find_agent(views, agent_id@) == find_agent(views.skip(i as int), agent_id@),
            decreases agents.len() - i,
        {
            assert(views.skip(i as int).drop_first() =~= views.skip(i + 1));
            assert(views.skip(i as int)[0] == agents@[i as int]@);
            if str_eq(agents[i].id.as_str(), agent_id) {
                return launch_agent(&agents[i], agent_id, definitions);
            }
            i = i + 1;
        }
        let mut m = owned("Unknown agent: ");
        m.append(agent_id);
        Err(m)
    }
}

fn launch_agent(agent: &AgentDescriptor, agent_id: &str, definitions: &Vec<HarnessDefinition>) -> (r:
    Result<AcpLaunchSpec, String>)
    requires
        agent.id@ == agent_id@,
    ensures
        match launch_outcome(seq![agent@], definitions@, agent_id@) {
            Ok(launch) => r matches Ok(spec) && spec@ == launch,
            Err(message) => r matches Err(m) && m@ == message,
        },
{
    assert(find_agent(seq![agent@], agent_id@) == Some(agent@));
    if agent.status != AgentStatus::Ready {
        let mut m = owned("Agent ");
        m.append(agent_id);
        m.append(" is not ready");
        return Err(m);
    }
    let missing = missing_of(&agent.capabilities);
    if missing.len() > 0 {
        let mut m = owned("Agent ");
        m.append(agent_id);
        m.append(" lacks required capabilities: ");
        m.append(join_texts(&missing, ", ").as_str());
        return Err(m);
    }
    let executable = match &agent.executable_path {
        Some(p) => p,
        None => {
            let mut m = owned("Agent ");
            m.append(agent_id);
            m.append(" has no executable path");
            return Err(m);
        },
    };
    let ghost all = definitions@;
    let mut i: usize = 0;
    assert(all.skip(0) =~= all);
    while i < definitions.len()
        invariant
            all == definitions@,
            i <= definitions.len(),
            agent.id@ == agent_id@,
            agent.status == AgentStatus::Ready,
            missing_capabilities(views_of(agent.capabilities@)).len() == 0,
            agent.executable_path == Some(*executable),
            find_agent(seq![agent@], agent_id@) == Some(agent@),
            find_definition(all, agent_id@) == find_definition(all.skip(i as int), agent_id@),
        decreases definitions.len() - i,
    {
        assert(all.skip(i as int).drop_first() =~= all.skip(i + 1));
        assert(all.skip(i as int)[0] == all[i as int]);
        if str_eq(definitions[i].id.as_str(), agent_id) {
            return Ok(
                AcpLaunchSpec {
                    executable: copy_string(executable),
                    arguments: copy_strings(&definitions[i].launch_arguments),
                    environment: copy_pairs(&definitions[i].launch_environment),
                    enforced_session_mode: copy_string(&definitions[i].enforced_session_mode),
                },
            );
        }
        i = i + 1;
    }
    Err(owned("Agent definition changed; refresh discovery"))
}

/// The capabilities a session needs that `caps` lacks.
fn missing_of(caps: &Vec<String>) -> (r: Vec<String>)
    ensures
        views_of(r@) == missing_capabilities(views_of(caps@)),
{
    let mut out: Vec<String> = Vec::new();
    let has_new = contains_text(caps, "session.new");
    let has_prompt = contains_text(caps, "session.prompt");
    let has_cancel = contains_text(caps, "session.cancel");
    if !has_new {
        out.push(owned("session.new"));
    }
    if !has_prompt {
        out.push(owned("session.prompt"));
    }
    if !has_cancel {
        out.push(owned("session.cancel"));
    }
    proof {
        let c = views_of(caps@);
        let all = seq!["session.new"@, "session.prompt"@, "session.cancel"@];
        let keep = |x: Seq<char>| !c.contains(x);
        reveal_with_fuel(Seq::filter, 4);
        assert(all.drop_last().drop_last().drop_last() =~= Seq::<Seq<char>>::empty());
        assert(views_of(out@) =~= all.filter(keep));
    }
    out
}

/// The texts of `parts` joined with `sep` between them.
fn join_texts(parts: &Vec<String>, sep: &str) -> (r: String)
    ensures
        r@ == joined(views_of(parts@), sep@),
{
    let mut out = String::new();
    let mut i: usize = 0;
    while i < parts.len()
        invariant
            i <= parts.len(),
            out@ == joined(views_of(parts@.take(i as int)), sep@),
        decreases parts.len() - i,
    {
        let ghost before = views_of(parts@.take(i as int));
        let ghost after = views_of(parts@.take(i + 1));
        assert(after.drop_last() =~= before);
        assert(after.last() == parts@[i as int]@);
        if i > 0 {
            out.append(sep);
        } else {
            assert(before =~= Seq::<Seq<char>>::empty());
            assert(after.len() == 1);
        }
        out.append(parts[i].as_str());
        i = i + 1;
    }
    assert(parts@.take(parts.len() as int) =~= parts@);
    out
}


// ---------------------------------------------------------------------------
// Where a harness command is looked for
// ---------------------------------------------------------------------------

/// The pieces of `s` between `sep` characters, empty pieces included.
pub open spec fn pieces(s: Seq<char>, sep: char) -> Seq<Seq<char>>
    decreases s.len(),
{
    if s.len() == 0 {
        seq![Seq::<char>::empty()]
    } else {
        let prev = pieces(s.drop_last(), sep);
        if s.last() == sep {
            prev.push(Seq::<char>::empty())
        } else {
            prev.update(prev.len() - 1, prev.last().push(s.last()))
        }
    }
}

proof fn lemma_pieces_nonempty(s: Seq<char>, sep: char)
    ensures
        pieces(s, sep).len() >= 1,
    decreases s.len(),
{
    if s.len() > 0 {
        lemma_pieces_nonempty(s.drop_last(), sep);
    }
}

/// The pieces of `s` between `sep` characters.
pub fn split_text(s: &str, sep: char) -> (r: Vec<String>)
    ensures
        views_of(r@) == pieces(s@, sep),
{
    let v = chars_of(s);
    let mut out: Vec<String> = Vec::new();
    let mut current: Vec<char> = Vec::new();
    let mut i: usize = 0;
    while i < v.len()
        invariant
            v@ == s@,
            i <= v.len(),
            views_of(out@).push(current@) == pieces(v@.take(i as int), sep),
        decreases v.len() - i,
    {
        let ghost before = v@.take(i as int);
        proof {
            assert(v@.take(i + 1).drop_last() =~= before);
            assert(v@.take(i + 1).last() == v@[i as int]);
            lemma_pieces_nonempty(before, sep);
        }
        let ghost done = views_of(out@);
        let ghost cur = current@;
        if v[i] == sep {
            out.push(string_of(&current));
            current = Vec::new();
            assert(views_of(out@) =~= done.push(cur));
            assert(views_of(out@).push(current@) =~= done.push(cur).push(Seq::<char>::empty()));
        } else {
            current.push(v[i]);
            assert(views_of(out@).push(current@) =~= done.push(cur).update(
                done.len() as int,
                cur.push(v@[i as int]),
            ));
        }
        i = i + 1;
    }
    assert(v@.take(v.len() as int) =~= v@);
    let ghost done = views_of(out@);
    out.push(string_of(&current));
    assert(views_of(out@) =~= done.push(current@));
    out
}

/// How many components `Path::components` yields for `s`: the root, a
/// leading `.` of a relative path, and each piece that is neither empty
/// nor `.`.
pub open spec fn component_count(s: Seq<char>) -> nat {
    let root: nat = if s.len() > 0 && s[0] == '/' {
        1
    } else {
        0
    };
    let current: nat = if !(s.len() > 0 && s[0] == '/') && pieces(s, '/')[0] == seq!['.'] {
        1
    } else {
        0
    };
    root + current + named_count(pieces(s, '/'))
}

/// How many of `ps` are neither empty nor `.`.
pub open spec fn named_count(ps: Seq<Seq<char>>) -> nat
    decreases ps.len(),
{
    if ps.len() == 0 {
        0
    } else if ps.last().len() > 0 && ps.last() != seq!['.'] {
        named_count(ps.drop_last()) + 1
    } else {
        named_count(ps.drop_last())
    }
}

/// `PathBuf::join`: an absolute `name` replaces `dir`; otherwise `name`
/// follows `dir`, with a `/` between them where `dir` is not empty and does
/// not already end with one.
pub open spec fn path_join(dir: Seq<char>, name: Seq<char>) -> Seq<char> {
    if name.len() > 0 && name[0] == '/' {
        name
    } else if dir.len() > 0 && dir.last() != '/' {
        dir + "/"@ + name
    } else {
        dir + name
    }
}

/// Joins two paths as `PathBuf::join` does.
pub fn join_path(dir: &str, name: &str) -> (r: String)
    ensures
        r@ == path_join(dir@, name@),
{
    let n = chars_of(name);
    let d = chars_of(dir);
    if n.len() > 0 && n[0] == '/' {
        return owned(name);
    }
    let mut r = owned(dir);
    if d.len() > 0 && d[d.len() - 1] != '/' {
        r.append("/");
    }
    r.append(name);
    r
}

/// The paths where `command` is looked for, in order: the command itself
/// when it names more than one path component; otherwise the command in
/// each directory of `PATH` (split at `:`), then in each known directory.
pub open spec fn candidate_paths(
    command: Seq<char>,
    path: Option<Seq<char>>,
    known: Seq<Seq<char>>,
) -> Seq<Seq<char>> {
    if component_count(command) > 1 {
        seq![command]
    } else {
        let dirs = match path {
            Some(p) => pieces(p, ':'),
            None => Seq::empty(),
        } + known;
        dirs.map_values(|d: Seq<char>| path_join(d, command))
    }
}

fn many_components(s: &str) -> (r: bool)
    ensures
        r == (component_count(s@) > 1),
{
    let v = chars_of(s);
    let parts = split_text(s, '/');
    proof {
        lemma_pieces_nonempty(s@, '/');
    }
    let absolute = v.len() > 0 && v[0] == '/';
    let first = chars_of(parts[0].as_str());
    assert(views_of(parts@)[0] == parts@[0]@);
    let current = !absolute && first.len() == 1 && first[0] == '.';
    if current {
        assert(first@ =~= seq!['.']);
    } else {
        assert(first@ != seq!['.'] || absolute);
    }
    let base: usize = (if absolute {
        1
    } else {
        0
    }) + (if current {
        1
    } else {
        0
    });
    let mut named: usize = 0;
    let mut i: usize = 0;
    while i < parts.len()
        invariant
            i <= parts.len(),
            named == named_count(views_of(parts@).take(i as int)),
            named <= i,
        decreases parts.len() - i,
    {
        let p = chars_of(parts[i].as_str());
        let ghost taken = views_of(parts@).take(i + 1);
        assert(taken.drop_last() =~= views_of(parts@).take(i as int));
        assert(taken.last() == p@);
        if p.len() > 0 && !(p.len() == 1 && p[0] == '.') {
            assert(p@ != seq!['.']);
            named = named + 1;
        } else {
            assert(p@.len() == 1 ==> p@ =~= seq![p@[0]]);
        }
        i = i + 1;
    }
    assert(views_of(parts@).take(parts.len() as int) =~= views_of(parts@));
    named > 1 || named + base > 1
}

/// Where to look for `command`, given `PATH` and the known directories.
pub fn executable_candidates(command: &str, path: Option<&str>, known_directories: &Vec<String>) -> (r:
    Vec<String>)
    ensures
        views_of(r@) == candidate_paths(
            command@,
            match path {
                Some(p) => Some(p@),
                None => None,
            },
            views_of(known_directories@),
        ),
{
    let mut out: Vec<String> = Vec::new();
    if many_components(command) {
        out.push(owned(command));
        assert(views_of(out@) =~= seq![command@]);
        return out;
    }
    let mut dirs: Vec<String> = match path {
        Some(p) => split_text(p, ':'),
        None => Vec::new(),
    };
    let ghost first = views_of(dirs@);
    let mut k: usize = 0;
    while k < known_directories.len()
        invariant
            k <= known_directories.len(),
            views_of(dirs@) == first + views_of(known_directories@).take(k as int),
        decreases known_directories.len() - k,
    {
        let ghost was = views_of(dirs@);
        dirs.push(copy_string(&known_directories[k]));
        assert(views_of(dirs@) =~= was.push(known_directories@[k as int]@));
        assert(views_of(known_directories@).take(k + 1) =~= views_of(known_directories@).take(
            k as int,
        ).push(known_directories@[k as int]@));
        assert(views_of(dirs@) =~= first + views_of(known_directories@).take(k + 1));
        k = k + 1;
    }
    assert(views_of(known_directories@).take(known_directories.len() as int) =~= views_of(
        known_directories@,
    ));
    let mut i: usize = 0;
    while i < dirs.len()
        invariant
            i <= dirs.len(),
            out@.len() == i,
            forall|j: int| 0 <= j < i ==> #[trigger] out@[j]@ == path_join(dirs@[j]@, command@),
        decreases dirs.len() - i,
    {
        out.push(join_path(dirs[i].as_str(), command));
        i = i + 1;
    }
    let ghost all_dirs = views_of(dirs@);
    assert(views_of(out@) =~= all_dirs.map_values(|d: Seq<char>| path_join(d, command@)));
    out
}

/// The directories searched after `PATH`: the usual macOS binary
/// directories, then `.local/bin` and `.cargo/bin` under the home
/// directory when it is known.
pub fn known_directories(home: Option<&str>) -> (r: Vec<String>)
    ensures
        views_of(r@) == seq!["/opt/homebrew/bin"@, "/usr/local/bin"@, "/usr/bin"@] + match home {
            Some(h) => seq![path_join(h@, ".local/bin"@), path_join(h@, ".cargo/bin"@)],
            None => Seq::<Seq<char>>::empty(),
        },
{
    let mut out: Vec<String> = Vec::new();
    out.push(owned("/opt/homebrew/bin"));
    out.push(owned("/usr/local/bin"));
    out.push(owned("/usr/bin"));
    match home {
        Some(h) => {
            out.push(join_path(h, ".local/bin"));
            out.push(join_path(h, ".cargo/bin"));
        },
        None => {},
    }
    assert(views_of(out@) =~= seq!["/opt/homebrew/bin"@, "/usr/local/bin"@, "/usr/bin"@] + match home {
        Some(h) => seq![path_join(h@, ".local/bin"@), path_join(h@, ".cargo/bin"@)],
        None => Seq::<Seq<char>>::empty(),
    });
    out
}

} // verus!
