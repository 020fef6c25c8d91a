use vela::session::{
    exit_message, keep_stderr_tail, prompt_outcome, run_id, session_id, state_after, stderr_text,
    AgentEventPayload, PromptLoop, PromptResult, RunTracker, SessionState, STDERR_LIMIT,
};

#[test]
fn run_events_are_numbered_from_one_and_end_once() {
    let mut tracker = RunTracker::new();
    assert_eq!(tracker.emit_active("s", 1, AgentEventPayload::Cancelled), None);
    tracker.begin("run-1".to_string(), "req-1".to_string());
    let first = tracker
        .emit_active("s", 10, AgentEventPayload::TextDelta { text: "a".to_string() })
        .unwrap();
    let second = tracker
        .emit_active("s", 11, AgentEventPayload::UsageUpdated { used: 1, size: 2 })
        .unwrap();
    assert_eq!((first.sequence, second.sequence), (1, 2));
    assert_eq!(first.run_id, "run-1");
    assert_eq!(first.request_id, "req-1");
    assert_eq!(first.session_id, "s");
    let last = tracker
        .finish("s", 12, AgentEventPayload::Completed { stop_reason: "EndTurn".to_string() })
        .unwrap();
    assert_eq!(last.sequence, 3);
    assert!(last.payload.is_terminal());
    assert_eq!(tracker.emit_active("s", 13, AgentEventPayload::Cancelled), None);
    assert_eq!(tracker.finish("s", 14, AgentEventPayload::Cancelled), None);

    tracker.begin("run-2".to_string(), "req-2".to_string());
    let next = tracker.emit_active("s", 20, AgentEventPayload::Cancelled).unwrap();
    assert_eq!(next.sequence, 1);
    assert_eq!(next.run_id, "run-2");
    tracker.clear_active();
    assert_eq!(tracker.emit_active("s", 21, AgentEventPayload::Cancelled), None);
}

#[test]
fn prompt_results_decide_the_terminal_payload_and_state() {
    assert_eq!(prompt_outcome(PromptResult::Stopped("Cancelled".to_string())), AgentEventPayload::Cancelled);
    let completed = prompt_outcome(PromptResult::Stopped("EndTurn".to_string()));
    assert_eq!(completed, AgentEventPayload::Completed { stop_reason: "EndTurn".to_string() });
    let failed = prompt_outcome(PromptResult::Error("boom".to_string()));
    assert_eq!(
        failed,
        AgentEventPayload::Failed { code: "prompt_failed".to_string(), message: "boom".to_string() }
    );
    let lost = prompt_outcome(PromptResult::Lost);
    assert_eq!(
        lost,
        AgentEventPayload::Failed {
            code: "prompt_response_lost".to_string(),
            message: "ACP prompt response channel closed".to_string(),
        }
    );
    assert_eq!(state_after(&AgentEventPayload::Cancelled), SessionState::Cancelled);
    assert_eq!(state_after(&failed), SessionState::Failed);
    assert_eq!(state_after(&completed), SessionState::Completed);
    assert!(!AgentEventPayload::TextDelta { text: String::new() }.is_terminal());
}

#[test]
fn a_session_runs_one_prompt_at_a_time() {
    let mut prompts = PromptLoop::new();
    assert_eq!(prompts.start("run-1".to_string(), "req-1".to_string()), Ok(()));
    assert_eq!(
        prompts.start("run-2".to_string(), "req-2".to_string()),
        Err("A prompt is already running".to_string())
    );
    assert!(prompts.cancels("run-1"));
    assert!(!prompts.cancels("run-2"));
    let update = prompts
        .update("s", 1, AgentEventPayload::TextDelta { text: "hi".to_string() })
        .unwrap();
    assert_eq!(update.sequence, 1);
    let (end, state) = prompts.end("s", 2, PromptResult::Stopped("Cancelled".to_string()));
    let end = end.unwrap();
    assert_eq!(end.sequence, 2);
    assert_eq!(end.payload, AgentEventPayload::Cancelled);
    assert_eq!(state, SessionState::Cancelled);
    assert!(!prompts.cancels("run-1"));
    assert_eq!(prompts.update("s", 3, AgentEventPayload::Cancelled), None);
    assert_eq!(prompts.start("run-3".to_string(), "req-3".to_string()), Ok(()));
    let timeout = prompts.time_out("s", 4, "ACP prompt timed out after 2s".to_string()).unwrap();
    assert_eq!(timeout.sequence, 1);
    assert_eq!(
        timeout.payload,
        AgentEventPayload::Failed {
            code: "prompt_timeout".to_string(),
            message: "ACP prompt timed out after 2s".to_string(),
        }
    );
}

#[test]
fn ending_or_timing_out_with_nothing_running_sends_nothing() {
    let mut prompts = PromptLoop::new();
    let (event, state) = prompts.end("s", 1, PromptResult::Error("boom".to_string()));
    assert_eq!(event, None);
    assert_eq!(state, SessionState::Failed);
    assert_eq!(prompts.time_out("s", 2, "late".to_string()), None);
    assert_eq!(prompts.start("run-1".to_string(), "req-1".to_string()), Ok(()));
    let (event, state) = prompts.end("s", 3, PromptResult::Stopped("EndTurn".to_string()));
    assert_eq!(event.unwrap().sequence, 1);
    assert_eq!(state, SessionState::Completed);
}

#[test]
fn session_ids_and_process_exits_are_described() {
    assert_eq!(session_id(12, 3), "session-12-3");
    assert_eq!(run_id(12, 4), "run-12-4");
    assert_eq!(exit_message("exit status: 1", ""), "ACP process exited with exit status: 1");
    assert_eq!(
        exit_message("exit status: 1", "boom"),
        "ACP process exited with exit status: 1: boom"
    );
    let mut kept = Vec::new();
    keep_stderr_tail(&mut kept, &vec![b'a'; STDERR_LIMIT - 1]);
    keep_stderr_tail(&mut kept, &b"xyz".to_vec());
    assert_eq!(kept.len(), STDERR_LIMIT);
    assert_eq!(&kept[kept.len() - 3..], b"xyz");
    assert_eq!(kept[0], b'a');
    assert_eq!(stderr_text(&b"  oops\n".to_vec()), "oops");
}
