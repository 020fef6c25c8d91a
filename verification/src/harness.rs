//! Command lines: the core's options, and the scenario switches
//! of the scripted ACP harness used to exercise discovery.

use vstd::prelude::*;
use crate::text::{copy_string, owned, str_eq};
use crate::json::{JsonNumber, JsonValue};
use crate::ipc::{has_keys, is_number, is_text, member_at};

verus! {

/// The usage line of the core.
pub open spec fn usage_text() -> Seq<char> {
    "usage: vela-core --socket <path> [--exit-with-parent]"@
}

/// Reads the rest `args` of the core's command line, where `socket` is the
/// socket path found so far (the first `--socket` wins) and `exit` whether
/// `--exit-with-parent` was seen: the socket path and the flag, or the
/// first problem. `--socket` needs a path after it, and any other argument
/// is refused.
pub open spec fn options_from(args: Seq<Seq<char>>, socket: Option<Seq<char>>, exit: bool) -> Result<
    (Seq<char>, bool),
    Seq<char>,
>
    decreases args.len(),
{
    if args.len() == 0 {
        match socket {
            Some(p) => Ok((p, exit)),
            None => Err(usage_text()),
        }
    } else if args[0] == "--socket"@ {
        if args.len() > 1 {
            options_from(
                args.skip(2),
                if socket is Some {
                    socket
                } else {
                    Some(args[1])
                },
                exit,
            )
        } else {
            Err("--socket requires a path"@)
        }
    } else if args[0] == "--exit-with-parent"@ {
        options_from(args.drop_first(), socket, true)
    } else {
        Err("unknown argument "@ + args[0])
    }
}

/// The options that the core's arguments (the program name excluded) give.
pub open spec fn core_arguments(args: Seq<Seq<char>>) -> Result<(Seq<char>, bool), Seq<char>> {
    options_from(args, None, false)
}

/// How the core runs: where it listens, and whether it shuts down once the
/// process that started it is gone.
#[derive(Debug, Clone, PartialEq, Eq)]
pub struct CoreOptions {
    pub socket_path: String,
    pub exit_with_parent: bool,
}

/// Reads the core's options from its arguments (the program name excluded):
/// `--socket <path>` is required, `--exit-with-parent` is optional, and any
/// other argument is refused with `unknown argument <arg>`.
pub fn core_options(args: &Vec<String>) -> (r: Result<CoreOptions, String>)
    ensures
        match core_arguments(crate::text::views_of(args@)) {
            Ok((p, exit)) => r matches Ok(o) && o.socket_path@ == p && o.exit_with_parent == exit,
            Err(m) => r matches Err(e) && e@ == m,
        },
{
    let ghost v = crate::text::views_of(args@);
    let mut socket: Option<String> = None;
    let mut exit = false;
    let mut i: usize = 0;
    assert(v.skip(0) =~= v);
    while i < args.len()
        invariant
            v == crate::text::views_of(args@),
            i <= args.len(),
            core_arguments(v) == options_from(
                v.skip(i as int),
                match socket {
                    Some(s) => Some(s@),
                    None => None,
                },
                exit,
            ),
        decreases args.len() - i,
    {
        assert(v.skip(i as int)[0] == args@[i as int]@);
        assert(v.skip(i as int).drop_first() =~= v.skip(i + 1));
        if str_eq(args[i].as_str(), "--socket") {
            if i + 1 < args.len() {
                assert(v.skip(i as int)[1] == args@[i + 1]@);
                assert(v.skip(i as int).skip(2) =~= v.skip(i + 2));
                if socket.is_none() {
                    socket = Some(copy_string(&args[i + 1]));
                }
                i = i + 2;
            } else {
                return Err(owned("--socket requires a path"));
            }
        } else if str_eq(args[i].as_str(), "--exit-with-parent") {
            exit = true;
            i = i + 1;
        } else {
            let mut m = owned("unknown argument ");
            m.append(args[i].as_str());
            return Err(m);
        }
    }
    assert(v.skip(i as int).len() == 0);
    match socket {
        Some(p) => Ok(CoreOptions { socket_path: p, exit_with_parent: exit }),
        None => Err(owned("usage: vela-core --socket <path> [--exit-with-parent]")),
    }
}

/// Reads the socket path from the core's arguments (the program name
/// excluded), refusing them as `core_options` does.
pub fn socket_path(args: &Vec<String>) -> (r: Result<String, String>)
    ensures
        match core_arguments(crate::text::views_of(args@)) {
            Ok((p, _)) => r matches Ok(s) && s@ == p,
            Err(m) => r matches Err(e) && e@ == m,
        },
{
    match core_options(args) {
        Ok(o) => Ok(o.socket_path),
        Err(m) => Err(m),
    }
}

/// Whether a core started with `--exit-with-parent` should shut down: the
/// parent process ID it sees now differs from the one it started with, or
/// is 1 (the init process adopted it). Both mean its supervisor is gone.
pub fn supervisor_gone(start_parent: u32, current_parent: u32) -> (r: bool)
    ensures
        r == (current_parent != start_parent || current_parent == 1),
{
    current_parent != start_parent || current_parent == 1
}

/// How the scripted harness answers.
#[derive(Debug, Clone, Copy, PartialEq, Eq, Structural)]
pub enum Scenario {
    Ready,
    Timeout,
    Invalid,
    Unauthenticated,
    Incompatible,
}

/// The scenario a `--scenario` value names; any other value is `Ready`.
pub open spec fn scenario_named(v: Seq<char>) -> Scenario {
    if v == "timeout"@ {
        Scenario::Timeout
    } else if v == "invalid"@ {
        Scenario::Invalid
    } else if v == "unauthenticated"@ {
        Scenario::Unauthenticated
    } else if v == "incompatible"@ {
        Scenario::Incompatible
    } else {
        Scenario::Ready
    }
}

impl Scenario {
    /// The scenario named by `value`.
    pub fn parse(value: &str) -> (r: Self)
        ensures
            r == scenario_named(value@),
    {
        if str_eq(value, "timeout") {
            Scenario::Timeout
        } else if str_eq(value, "invalid") {
            Scenario::Invalid
        } else if str_eq(value, "unauthenticated") {
            Scenario::Unauthenticated
        } else if str_eq(value, "incompatible") {
            Scenario::Incompatible
        } else {
            Scenario::Ready
        }
    }
}

/// The value after the first occurrence of `option` that has a value after it.
pub open spec fn option_after(args: Seq<Seq<char>>, option: Seq<char>) -> Option<Seq<char>>
    decreases args.len(),
{
    if args.len() < 2 {
        None
    } else if args[0] == option {
        Some(args[1])
    } else {
        option_after(args.drop_first(), option)
    }
}

/// The value given for `option`: the argument right after it.
pub fn option_value(arguments: &Vec<String>, option: &str) -> (r: Option<String>)
    ensures
        match option_after(crate::text::views_of(arguments@), option@) {
            Some(v) => r matches Some(s) && s@ == v,
            None => r is None,
        },
{
    let ghost v = crate::text::views_of(arguments@);
    let mut i: usize = 0;
    assert(v.skip(0) =~= v);
    while i < arguments.len() && i + 1 < arguments.len()
        invariant
            v == crate::text::views_of(arguments@),
            i <= arguments.len(),
            option_after(v, option@) == option_after(v.skip(i as int), option@),
        decreases arguments.len() - i,
    {
        assert(v.skip(i as int)[0] == arguments@[i as int]@);
        assert(v.skip(i as int)[1] == arguments@[i + 1]@);
        assert(v.skip(i as int).drop_first() =~= v.skip(i + 1));
        if str_eq(arguments[i].as_str(), option) {
            return Some(copy_string(&arguments[i + 1]));
        }
        i = i + 1;
    }
    None
}


/// How the scripted harness answers one request.
#[derive(Debug)]
pub enum HarnessReply {
    /// Never answer in time.
    Hang,
    /// Write this line, which is not JSON.
    Line(String),
    /// Write this JSON-RPC message.
    Json(JsonValue),
}

/// A negative JSON integer, given by its text.
fn negative(text: &str) -> (r: JsonValue)
    ensures
        r matches JsonValue::Number(n) && n.text@ == text@ && n.unsigned is None,
{
    JsonValue::Number(JsonNumber { text: owned(text), unsigned: None })
}

fn flag(name: &str, value: bool) -> (r: (String, JsonValue))
    ensures
        r.0@ == name@,
        r.1 == JsonValue::Bool(value),
{
    (owned(name), JsonValue::Bool(value))
}

fn error_reply(id: JsonValue, code: &str, message: &str) -> (r: JsonValue)
    ensures
        has_keys(r, seq!["jsonrpc"@, "id"@, "error"@]),
        is_text(member_at(r, 0), "2.0"@),
        member_at(r, 1) == id,
        has_keys(member_at(r, 2), seq!["code"@, "message"@]),
        member_at(member_at(r, 2), 0) matches JsonValue::Number(n) && n.text@ == code@,
        is_text(member_at(member_at(r, 2), 1), message@),
{
    let ghost i = id;
    let mut e: Vec<(String, JsonValue)> = Vec::new();
    e.push((owned("code"), negative(code)));
    e.push((owned("message"), JsonValue::from_str(message)));
    let error = JsonValue::Object(e);
    assert(has_keys(error, seq!["code"@, "message"@]));
    let mut m: Vec<(String, JsonValue)> = Vec::new();
    m.push((owned("jsonrpc"), JsonValue::from_str("2.0")));
    m.push((owned("id"), id));
    m.push((owned("error"), error));
    let r = JsonValue::Object(m);
    assert(has_keys(r, seq!["jsonrpc"@, "id"@, "error"@]));
    assert(member_at(r, 1) == i);
    r
}

fn ready_result() -> (r: JsonValue)
    ensures
        has_keys(r, seq!["protocolVersion"@, "agentCapabilities"@, "authMethods"@, "agentInfo"@]),
        is_number(member_at(r, 0), 1),
        member_at(r, 2) matches JsonValue::Array(a) && a@.len() == 0,
        has_keys(member_at(r, 3), seq!["name"@, "version"@]),
        is_text(member_at(member_at(r, 3), 0), "Fake ACP Harness"@),
        is_text(member_at(member_at(r, 3), 1), "0.1.0"@),
{
    let mut prompt: Vec<(String, JsonValue)> = Vec::new();
    prompt.push(flag("image", true));
    prompt.push(flag("audio", false));
    prompt.push(flag("embeddedContext", true));
    let mut mcp: Vec<(String, JsonValue)> = Vec::new();
    mcp.push(flag("http", true));
    mcp.push(flag("sse", false));
    let mut session: Vec<(String, JsonValue)> = Vec::new();
    session.push((owned("list"), JsonValue::Object(Vec::new())));
    session.push((owned("resume"), JsonValue::Object(Vec::new())));
    let mut caps: Vec<(String, JsonValue)> = Vec::new();
    caps.push(flag("loadSession", true));
    caps.push((owned("promptCapabilities"), JsonValue::Object(prompt)));
    caps.push((owned("mcpCapabilities"), JsonValue::Object(mcp)));
    caps.push((owned("sessionCapabilities"), JsonValue::Object(session)));
    let mut info: Vec<(String, JsonValue)> = Vec::new();
    info.push((owned("name"), JsonValue::from_str("Fake ACP Harness")));
    info.push((owned("version"), JsonValue::from_str("0.1.0")));
    let info = JsonValue::Object(info);
    assert(has_keys(info, seq!["name"@, "version"@]));
    let mut m: Vec<(String, JsonValue)> = Vec::new();
    m.push((owned("protocolVersion"), JsonValue::from_u64(1)));
    m.push((owned("agentCapabilities"), JsonValue::Object(caps)));
    m.push((owned("authMethods"), JsonValue::Array(Vec::new())));
    m.push((owned("agentInfo"), info));
    let r = JsonValue::Object(m);
    assert(has_keys(r, seq!["protocolVersion"@, "agentCapabilities"@, "authMethods"@, "agentInfo"@]));
    r
}

/// How the scripted harness answers the request with `id` in `scenario`:
/// it hangs, writes a line that is not JSON, refuses with an
/// authentication or protocol error, or answers with a ready agent.
pub fn scenario_reply(scenario: Scenario, id: JsonValue) -> (r: HarnessReply)
    ensures
        scenario is Timeout ==> r is Hang,
        scenario is Invalid ==> (r matches HarnessReply::Line(l) && l@ == "not-json"@),
        scenario is Unauthenticated ==> (r matches HarnessReply::Json(v) && has_keys(
            v,
            seq!["jsonrpc"@, "id"@, "error"@],
        ) && member_at(v, 1) == id && is_text(
            member_at(member_at(v, 2), 1),
            "authentication required"@,
        ) && (member_at(member_at(v, 2), 0) matches JsonValue::Number(n) && n.text@ == "-32000"@)),
        scenario is Incompatible ==> (r matches HarnessReply::Json(v) && has_keys(
            v,
            seq!["jsonrpc"@, "id"@, "error"@],
        ) && member_at(v, 1) == id && is_text(
            member_at(member_at(v, 2), 1),
            "incompatible protocol version"@,
        ) && (member_at(member_at(v, 2), 0) matches JsonValue::Number(n) && n.text@ == "-32602"@)),
        scenario is Ready ==> (r matches HarnessReply::Json(v) && has_keys(
            v,
            seq!["jsonrpc"@, "id"@, "result"@],
        ) && is_text(member_at(v, 0), "2.0"@) && member_at(v, 1) == id && has_keys(
            member_at(v, 2),
            seq!["protocolVersion"@, "agentCapabilities"@, "authMethods"@, "agentInfo"@],
        )),
{
    match scenario {
        Scenario::Timeout => HarnessReply::Hang,
        Scenario::Invalid => HarnessReply::Line(owned("not-json")),
        Scenario::Unauthenticated => HarnessReply::Json(
            error_reply(id, "-32000", "authentication required"),
        ),
        Scenario::Incompatible => HarnessReply::Json(
            error_reply(id, "-32602", "incompatible protocol version"),
        ),
        Scenario::Ready => {
            let ghost i = id;
            let mut m: Vec<(String, JsonValue)> = Vec::new();
            m.push((owned("jsonrpc"), JsonValue::from_str("2.0")));
            m.push((owned("id"), id));
            m.push((owned("result"), ready_result()));
            let v = JsonValue::Object(m);
            assert(has_keys(v, seq!["jsonrpc"@, "id"@, "result"@]));
            assert(member_at(v, 1) == i);
            HarnessReply::Json(v)
        },
    }
}

} // verus!
